use starchart::db::Store;
use starchart::errors::FedError;
use starchart::federate::Federate;
use starchart::federate::TreeFederate;
use starchart::models::AddRepository;
use starchart::models::AddUser;
use starchart::models::CreateForge;
use starchart::models::ForgeImplementation;

#[test]
fn directory_operations_are_repeatable() {
    let mut fed = TreeFederate::new();
    let path = "instances/cache".to_string();

    fed.create_dir_if_not_exists(&path).unwrap();
    // creating an existing directory entry succeeds again
    fed.create_dir_if_not_exists(&path).unwrap();
    fed.rm_util(&path).unwrap();
    // removing an absent directory entry succeeds again
    fed.rm_util(&path).unwrap();
}

#[test]
fn exporter_mirrors_forge_users_and_repositories() {
    let host = "https://mirror.example.net".to_string();
    let mut fed = TreeFederate::new();

    assert!(!fed.forge_exists(&host).unwrap());
    fed.create_forge_instance(&CreateForge {
        hostname: host.clone(),
        forge_type: ForgeImplementation::Gitea,
    })
    .unwrap();
    assert!(fed.forge_exists(&host).unwrap());

    let user = "mirrored".to_string();
    assert!(!fed.user_exists(&user, &host).unwrap());
    fed.create_user(&AddUser {
        hostname: host.clone(),
        username: user.clone(),
        html_link: "https://mirror.example.net/mirrored".to_string(),
        profile_photo: None,
    })
    .unwrap();
    assert!(fed.user_exists(&user, &host).unwrap());

    let name = "artifact".to_string();
    assert!(!fed.repository_exists(&name, &user, &host).unwrap());
    fed.create_repository(&AddRepository {
        hostname: host.clone(),
        owner: user.clone(),
        name: name.clone(),
        html_link: "https://mirror.example.net/mirrored/artifact".to_string(),
        tags: None,
        website: None,
        description: None,
    })
    .unwrap();
    assert!(fed.repository_exists(&name, &user, &host).unwrap());

    fed.delete_repository(&user, &name, &host).unwrap();
    assert!(!fed.repository_exists(&name, &user, &host).unwrap());
    fed.delete_user(&user, &host).unwrap();
    assert!(!fed.user_exists(&user, &host).unwrap());
    fed.delete_forge_instance(&host).unwrap();
    assert!(!fed.forge_exists(&host).unwrap());
}

#[test]
fn exporter_rejects_forge_removal_with_children() {
    let host = "https://busy.example.net".to_string();
    let mut fed = TreeFederate::new();
    fed.create_forge_instance(&CreateForge {
        hostname: host.clone(),
        forge_type: ForgeImplementation::Gitea,
    })
    .unwrap();
    fed.create_user(&AddUser {
        hostname: host.clone(),
        username: "resident".to_string(),
        html_link: "https://busy.example.net/resident".to_string(),
        profile_photo: None,
    })
    .unwrap();

    assert_eq!(fed.delete_forge_instance(&host), Err(FedError::Conflict));
    assert!(fed.forge_exists(&host).unwrap());

    fed.delete_user(&"resident".to_string(), &host).unwrap();
    fed.delete_forge_instance(&host).unwrap();
    assert!(!fed.forge_exists(&host).unwrap());
}

#[test]
fn bundle_is_produced() {
    let host = "https://bundled.example.net".to_string();
    let mut fed = TreeFederate::new();
    fed.create_forge_instance(&CreateForge {
        hostname: host.clone(),
        forge_type: ForgeImplementation::Gitea,
    })
    .unwrap();
    let path = fed.tar().unwrap();
    assert!(!path.is_empty());
    // the tree itself is unchanged by bundling
    assert!(fed.forge_exists(&host).unwrap());
}

#[test]
fn rebuild_matches_store() {
    let host = "https://rebuilt.example.net".to_string();
    let user = "copied".to_string();
    let name = "twin".to_string();
    let mut db = Store::new();
    db.migrate().unwrap();
    db.create_forge_instance(&CreateForge {
        hostname: host.clone(),
        forge_type: ForgeImplementation::Gitea,
    })
    .unwrap();
    db.add_user(&AddUser {
        hostname: host.clone(),
        username: user.clone(),
        html_link: "https://rebuilt.example.net/copied".to_string(),
        profile_photo: None,
    })
    .unwrap();
    db.create_repository(&AddRepository {
        hostname: host.clone(),
        owner: user.clone(),
        name: name.clone(),
        html_link: "https://rebuilt.example.net/copied/twin".to_string(),
        tags: None,
        website: None,
        description: None,
    })
    .unwrap();

    let fed = TreeFederate::rebuild_from(&db);
    assert!(fed.forge_exists(&host).unwrap());
    assert!(fed.user_exists(&user, &host).unwrap());
    assert!(fed.repository_exists(&name, &user, &host).unwrap());

    db.delete_repository(&user, &name, &host).unwrap();
    let fed2 = TreeFederate::rebuild_from(&db);
    assert!(fed2.forge_exists(&host).unwrap());
    assert!(!fed2.repository_exists(&name, &user, &host).unwrap());
}
