use simply_files::config::{get_file_system, Config, LocalConfig, SSHConfig, WhichFileSystem};
use simply_files::error::ServiceError;
use simply_files::index::Index;
use simply_files::protected::{
    change_access, get_used_storage_space, id_to_path, path_to_id, remove_file, rename_file,
    verify_link,
};
use simply_files::records::FileAccess;
use simply_files::upload::{complete_upload, start_session, ChunkStep};
use simply_files::simply_packet::{Chunk, Packet};

#[test]
fn verify_link_states() {
    let mut index = Index::new();
    assert_eq!(verify_link(&index, "LLLLLLLLLL").unwrap_err(), ServiceError::NotFound);
    index.new_link("LLLLLLLLLL", 0).unwrap();
    assert!(verify_link(&index, "LLLLLLLLLL").is_ok());
    index.uploaded_with("LLLLLLLLLL", "AAAAAAAAAA", 1);
    let used = verify_link(&index, "LLLLLLLLLL").unwrap_err();
    assert_eq!(used, ServiceError::InvalidArgument);
    assert_eq!(used.status_code(), 400);
}

#[test]
fn public_link_upload_binds_and_burns_the_link() {
    // An anonymous upload through a one-time link: the stored path is under
    // the reserved prefix, the file flips to Public, and the link stops
    // granting anything.
    let mut index = Index::new();
    index.new_link("LLLLLLLLLL", 0).unwrap();
    assert!(verify_link(&index, "LLLLLLLLLL").is_ok());

    let s = start_session(
        &mut index,
        "AAAAAAAAAA",
        ".public_uploads/pic.png",
        3,
        4,
        1000,
        1,
    )
    .unwrap();
    let mut engine = s.engine;
    match engine.on_packet(&Packet::Binary(Chunk { idx: 0, size: 3, data: vec![1, 2, 3] })) {
        ChunkStep::Write(_) => engine.chunk_written(),
        _ => panic!("chunk refused"),
    }
    index.update_chunk_index(&engine.file_id, engine.progress() as i64, 2);
    let record = complete_upload(&mut index, &engine, Some("LLLLLLLLLL"), 3).unwrap();
    assert_eq!(record.path, ".public_uploads/pic.png");
    assert_eq!(record.get_access(), FileAccess::Public);

    let link = index.get_link_via_id("LLLLLLLLLL").unwrap();
    assert!(!link.is_valid_to_use());
    assert_eq!(link.uploaded_file.as_deref(), Some("AAAAAAAAAA"));
    assert_eq!(
        verify_link(&index, "LLLLLLLLLL").unwrap_err(),
        ServiceError::InvalidArgument
    );
}

#[test]
fn remove_file_returns_the_id_for_storage() {
    let mut index = Index::new();
    index.new_file("AAAAAAAAAA", "a.txt", 1, 0).unwrap();
    let id = remove_file(&mut index, "a.txt").unwrap();
    assert_eq!(id, "AAAAAAAAAA");
    assert!(index.get_via_path("a.txt").is_none());
    assert_eq!(
        remove_file(&mut index, "a.txt").unwrap_err(),
        ServiceError::NotFound
    );
}

#[test]
fn rename_file_moves_the_row() {
    let mut index = Index::new();
    index.new_file("AAAAAAAAAA", "a.txt", 1, 0).unwrap();
    index.new_file("BBBBBBBBBB", "b.txt", 1, 0).unwrap();
    rename_file(&mut index, "a.txt", "c.txt", 5).unwrap();
    assert!(index.get_via_path("c.txt").is_some());
    assert_eq!(
        rename_file(&mut index, "c.txt", "b.txt", 6).unwrap_err(),
        ServiceError::Conflict
    );
    assert_eq!(
        rename_file(&mut index, "nope.txt", "x.txt", 7).unwrap_err(),
        ServiceError::NotFound
    );
}

#[test]
fn change_access_by_path_and_by_id() {
    let mut index = Index::new();
    index.new_file("AAAAAAAAAA", "a.txt", 1, 0).unwrap();
    change_access(&mut index, "a.txt", false, 1, 5).unwrap();
    assert_eq!(index.get_via_id("AAAAAAAAAA").unwrap().get_access(), FileAccess::Public);
    change_access(&mut index, "AAAAAAAAAA", true, 0, 6).unwrap();
    assert_eq!(index.get_via_id("AAAAAAAAAA").unwrap().get_access(), FileAccess::Private);
    assert_eq!(
        change_access(&mut index, "nope", false, 1, 7).unwrap_err(),
        ServiceError::NotFound
    );
}

#[test]
fn translations_respect_the_gate() {
    let mut index = Index::new();
    index.new_file("AAAAAAAAAA", "a.txt", 1, 0).unwrap();
    assert_eq!(
        path_to_id(&index, "a.txt", false).unwrap_err(),
        ServiceError::Unauthorized
    );
    assert_eq!(path_to_id(&index, "a.txt", true).unwrap().id, "AAAAAAAAAA");
    assert_eq!(id_to_path(&index, "AAAAAAAAAA", true).unwrap().path, "a.txt");
    index.change_access("AAAAAAAAAA", FileAccess::Public, 1);
    assert!(id_to_path(&index, "AAAAAAAAAA", false).is_ok());
}

#[test]
fn storage_limit_report() {
    let mut index = Index::new();
    index.new_file("AAAAAAAAAA", "a.txt", 1, 0).unwrap();
    index.successful_upload("AAAAAAAAAA", 250, 1);
    let report = get_used_storage_space(&index, 1000);
    assert_eq!(report.used, 250);
    assert_eq!(report.max, 1000);
}

#[test]
fn file_system_report_lines() {
    let local = Config {
        file_system: WhichFileSystem::Local,
        addr: "0.0.0.0:8080".to_string(),
        backend_url: None,
        web_url: None,
        db: "db.sqlite".to_string(),
        token: "t0k".to_string(),
        upload_limit: 1,
        storage_limit: 1,
        upload_timeout: 1,
        cookie_domain: None,
        ssh: None,
        local: Some(LocalConfig { root: "/data".to_string() }),
    };
    let info = get_file_system(&local);
    assert_eq!(info.which, "Local");
    assert_eq!(info.about, "/data");

    let ssh = Config {
        file_system: WhichFileSystem::SSH,
        ssh: Some(SSHConfig {
            host: "files.example".to_string(),
            port: 22,
            username: "sf".to_string(),
            root: "/srv/data".to_string(),
            password: None,
            public_key: None,
        }),
        local: None,
        ..local
    };
    let info = get_file_system(&ssh);
    assert_eq!(info.which, "SSH");
    assert_eq!(info.about, "sf:*****@files.example:22 | /srv/data");
    assert_eq!(WhichFileSystem::SSH.to_string(), "SSH");
    assert_eq!(WhichFileSystem::Local.to_string(), "Local");
}

#[test]
fn link_qr_codes_need_a_usable_link() {
    let mut index = Index::new();
    let url = "https://web.example".to_string();
    assert_eq!(
        simply_files::download::qr_code_link(&index, "LLLLLLLLLL", Some(&url)).unwrap_err(),
        ServiceError::NotFound
    );
    index.new_link("LLLLLLLLLL", 0).unwrap();
    assert_eq!(
        simply_files::download::qr_code_link(&index, "LLLLLLLLLL", None).unwrap_err(),
        ServiceError::Internal
    );
    let png = simply_files::download::qr_code_link(&index, "LLLLLLLLLL", Some(&url)).unwrap();
    assert_eq!(&png[0..4], &[0x89, b'P', b'N', b'G']);
    index.uploaded_with("LLLLLLLLLL", "AAAAAAAAAA", 1);
    assert_eq!(
        simply_files::download::qr_code_link(&index, "LLLLLLLLLL", Some(&url)).unwrap_err(),
        ServiceError::InvalidArgument
    );
}
