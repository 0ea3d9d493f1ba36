use starchart::db::Store;
use starchart::db::adding_forge_works;
use starchart::db::forge_type_exists_helper;
use starchart::errors::DBError;
use starchart::models::AddRepository;
use starchart::models::AddUser;
use starchart::models::CreateForge;
use starchart::models::ForgeImplementation;

#[test]
fn everything_works() {
    const HOSTNAME: &str = "https://test-gitea.example.com";
    const HTML_PROFILE_URL: &str = "https://test-gitea.example.com/user1";
    const HTML_PROFILE_PHOTO_URL_2: &str = "https://test-gitea.example.com/profile-photo/user2";
    const USERNAME: &str = "user1";
    const USERNAME2: &str = "user2";

    const REPO_NAME: &str = "starchart";
    const HTML_REPO_URL: &str = "https://test-gitea.example.com/user1/starchart";

    let create_forge_msg = CreateForge {
        hostname: HOSTNAME.to_string(),
        forge_type: ForgeImplementation::Gitea,
    };

    let add_user_msg = AddUser {
        hostname: HOSTNAME.to_string(),
        html_link: HTML_PROFILE_URL.to_string(),
        profile_photo: None,
        username: USERNAME.to_string(),
    };

    let add_user_msg_2 = AddUser {
        hostname: HOSTNAME.to_string(),
        html_link: HTML_PROFILE_PHOTO_URL_2.to_string(),
        profile_photo: Some(HTML_PROFILE_PHOTO_URL_2.to_string()),
        username: USERNAME2.to_string(),
    };

    let mut db = Store::new();
    db.migrate().unwrap();

    let add_repo_msg = AddRepository {
        html_link: HTML_REPO_URL.to_string(),
        name: REPO_NAME.to_string(),
        tags: Some(vec![
            "test".to_string(),
            "starchart".to_string(),
            "spider".to_string(),
        ]),
        owner: USERNAME.to_string(),
        website: None,
        description: None,
        hostname: HOSTNAME.to_string(),
    };

    adding_forge_works(
        &mut db,
        &create_forge_msg,
        &add_user_msg,
        &add_user_msg_2,
        &add_repo_msg,
    );
}

#[test]
fn forge_type_exists() {
    let mut db = Store::new();
    db.migrate().unwrap();
    forge_type_exists_helper(&db);
    assert!(db.forge_type_exists(&ForgeImplementation::Gitea).unwrap());
}

#[test]
fn forge_round_trip() {
    let host = "https://roundtrip.example.net".to_string();
    let mut db = Store::new();
    db.migrate().unwrap();

    assert!(!db.forge_exists(&host).unwrap());
    db.create_forge_instance(&CreateForge {
        hostname: host.clone(),
        forge_type: ForgeImplementation::Gitea,
    })
    .unwrap();
    assert!(db.forge_exists(&host).unwrap());
    db.delete_forge_instance(&host).unwrap();
    assert!(!db.forge_exists(&host).unwrap());
}

#[test]
fn migrate_is_idempotent() {
    let mut db = Store::new();
    db.migrate().unwrap();
    db.migrate().unwrap();
    assert!(db.forge_type_exists(&ForgeImplementation::Gitea).unwrap());
}

#[test]
fn create_forge_conflict_and_reference_errors() {
    let host = "https://errors.example.net".to_string();
    let msg = CreateForge {
        hostname: host.clone(),
        forge_type: ForgeImplementation::Gitea,
    };

    // without initialization the forge type is unseeded
    let mut raw = Store::new();
    assert_eq!(
        raw.create_forge_instance(&msg),
        Err(DBError::ReferenceError)
    );

    let mut db = Store::new();
    db.migrate().unwrap();
    db.create_forge_instance(&msg).unwrap();
    assert_eq!(db.create_forge_instance(&msg), Err(DBError::Conflict));
}

#[test]
fn delete_forge_not_found_and_dependents_rejected() {
    let host = "https://delete.example.net".to_string();
    let mut db = Store::new();
    db.migrate().unwrap();

    assert_eq!(db.delete_forge_instance(&host), Err(DBError::NotFound));

    db.create_forge_instance(&CreateForge {
        hostname: host.clone(),
        forge_type: ForgeImplementation::Gitea,
    })
    .unwrap();
    db.add_user(&AddUser {
        hostname: host.clone(),
        username: "keeper".to_string(),
        html_link: "https://delete.example.net/keeper".to_string(),
        profile_photo: None,
    })
    .unwrap();
    // deletion is rejected while a user still exists under the forge
    assert_eq!(db.delete_forge_instance(&host), Err(DBError::Conflict));
    db.delete_user(&"keeper".to_string(), &host).unwrap();
    db.delete_forge_instance(&host).unwrap();
    assert!(!db.forge_exists(&host).unwrap());
}

#[test]
fn user_exists_global_and_scoped() {
    let host1 = "https://one.example.net".to_string();
    let host2 = "https://two.example.net".to_string();
    let user = "someone".to_string();
    let mut db = Store::new();
    db.migrate().unwrap();
    for h in [&host1, &host2] {
        db.create_forge_instance(&CreateForge {
            hostname: h.clone(),
            forge_type: ForgeImplementation::Gitea,
        })
        .unwrap();
    }

    assert!(!db.user_exists(&user, None).unwrap());
    db.add_user(&AddUser {
        hostname: host1.clone(),
        username: user.clone(),
        html_link: "https://one.example.net/someone".to_string(),
        profile_photo: None,
    })
    .unwrap();

    // globally present, scoped to exactly the hostname it lives under
    assert!(db.user_exists(&user, None).unwrap());
    assert!(db.user_exists(&user, Some(&host1)).unwrap());
    assert!(!db.user_exists(&user, Some(&host2)).unwrap());

    db.delete_user(&user, &host1).unwrap();
    assert!(!db.user_exists(&user, None).unwrap());
}

#[test]
fn user_errors() {
    let host = "https://user-errors.example.net".to_string();
    let user = AddUser {
        hostname: host.clone(),
        username: "dupe".to_string(),
        html_link: "https://user-errors.example.net/dupe".to_string(),
        profile_photo: None,
    };
    let mut db = Store::new();
    db.migrate().unwrap();

    // no forge instance yet
    assert_eq!(db.add_user(&user), Err(DBError::ReferenceError));
    assert_eq!(
        db.delete_user(&user.username, &host),
        Err(DBError::NotFound)
    );

    db.create_forge_instance(&CreateForge {
        hostname: host.clone(),
        forge_type: ForgeImplementation::Gitea,
    })
    .unwrap();
    db.add_user(&user).unwrap();
    assert_eq!(db.add_user(&user), Err(DBError::Conflict));
}

#[test]
fn repository_round_trip_and_errors() {
    let host = "https://repos.example.net".to_string();
    let owner = "owner".to_string();
    let name = "widget".to_string();
    let repo = AddRepository {
        hostname: host.clone(),
        owner: owner.clone(),
        name: name.clone(),
        html_link: "https://repos.example.net/owner/widget".to_string(),
        tags: None,
        website: Some("https://widget.example.net".to_string()),
        description: Some("a widget".to_string()),
    };
    let mut db = Store::new();
    db.migrate().unwrap();
    db.create_forge_instance(&CreateForge {
        hostname: host.clone(),
        forge_type: ForgeImplementation::Gitea,
    })
    .unwrap();

    // owner does not exist yet
    assert_eq!(db.create_repository(&repo), Err(DBError::ReferenceError));
    db.add_user(&AddUser {
        hostname: host.clone(),
        username: owner.clone(),
        html_link: "https://repos.example.net/owner".to_string(),
        profile_photo: None,
    })
    .unwrap();

    assert!(!db.repository_exists(&name, &owner, &host).unwrap());
    db.create_repository(&repo).unwrap();
    assert!(db.repository_exists(&name, &owner, &host).unwrap());
    assert_eq!(db.create_repository(&repo), Err(DBError::Conflict));
    db.delete_repository(&owner, &name, &host).unwrap();
    assert!(!db.repository_exists(&name, &owner, &host).unwrap());
    assert_eq!(
        db.delete_repository(&owner, &name, &host),
        Err(DBError::NotFound)
    );
}

#[test]
fn forge_type_name() {
    assert_eq!(ForgeImplementation::Gitea.to_str(), "gitea");
}
