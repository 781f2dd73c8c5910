use simply_files::client_app::{App, ArgPath, Args, Command, Config, FileIdentifier, Host};
use simply_files::client_hosts::{add, ls, rm};
use simply_files::client_upload::{ClientAction, ServerEvent, UploadClient, CHUNK_SIZE};
use simply_files::ids::generate_id;
use simply_files::number::u64_to_string;
use simply_files::simply_packet::{JsonChunkIndex, JsonInitializeUpload};
use simply_files::storage::Local;

fn empty_config() -> Config {
    Config { hosts: Vec::new(), default_host: None, link_host: None }
}

fn app_with(host_arg: Option<&str>, config: Config) -> App {
    App {
        args: Args {
            command: Command::Ls { directory: ArgPath(String::new()) },
            host: host_arg.map(|s| s.to_string()),
            debug: false,
        },
        config,
    }
}

#[test]
fn host_argument_with_token() {
    let app = app_with(Some("SECRET-REDACTED@https://files.example"), empty_config());
    let host = app.get_host();
    assert_eq!(host.name, "ArgsHost");
    assert_eq!(host.url, "https://files.example");
    assert_eq!(host.token.as_deref(), Some("SECRET-REDACTED"));
    assert!(host.web_url.is_none());
}

#[test]
fn host_argument_without_token() {
    let app = app_with(Some("http://files.example"), empty_config());
    let host = app.get_host();
    assert_eq!(host.url, "http://files.example");
    assert!(host.token.is_none());
}

#[test]
fn default_host_is_looked_up() {
    let mut config = empty_config();
    assert!(add(&mut config, "home", "https://h.example", None, None, true));
    let app = app_with(None, config);
    let host = app.get_host();
    assert_eq!(host.name, "home");
    assert_eq!(host.url, "https://h.example");
}

#[test]
fn socket_url_swaps_the_scheme() {
    let app = app_with(Some("https://files.example"), empty_config());
    assert_eq!(app.get_base_socket_url(), "wss://files.example");
    let app = app_with(Some("http://files.example"), empty_config());
    assert_eq!(app.get_base_socket_url(), "ws://files.example");
}

#[test]
fn urls_are_joined_on_the_host() {
    let app = app_with(Some("https://files.example"), empty_config());
    assert_eq!(app.get_url("/d/abc"), "https://files.example/d/abc");
    assert_eq!(App::get_user_agent(), "sf_cli / 0.1.0");
}

#[test]
fn host_management_round() {
    let mut config = empty_config();
    assert!(add(&mut config, "one", "https://one", None, None, true));
    assert!(add(&mut config, "two", "https://two", Some("tk".to_string()), None, false));
    assert!(!add(&mut config, "one", "https://again", None, None, false));
    assert_eq!(config.hosts.len(), 2);
    assert_eq!(config.default_host.as_deref(), Some("one"));

    let lines = ls(&config);
    assert_eq!(lines.len(), 2);
    assert_eq!(lines[0], "> [one] https://one (No token)");
    assert_eq!(lines[1], "  [two] https://two (******)");

    assert!(simply_files::client_hosts::set(&mut config, "two"));
    assert_eq!(config.default_host.as_deref(), Some("two"));
    assert!(!simply_files::client_hosts::set(&mut config, "nope"));

    assert!(rm(&mut config, "two"));
    assert_eq!(config.hosts.len(), 1);
    assert!(config.default_host.is_none());
    assert!(!rm(&mut config, "two"));
}

#[test]
fn file_identifier_heuristic() {
    assert!(matches!(FileIdentifier::classify("AbCdEf1234"), FileIdentifier::Id(_)));
    assert!(matches!(FileIdentifier::classify("short"), FileIdentifier::Path(_)));
    assert!(matches!(FileIdentifier::classify("a/b_c_d.01"), FileIdentifier::Path(_)));
    assert!(matches!(FileIdentifier::classify("name01.txt"), FileIdentifier::Path(_)));
}

#[test]
fn arg_path_carries_its_string() {
    let p = ArgPath("docs/a".to_string());
    assert_eq!(p.to_string(), "docs/a");
    assert_eq!(p.path(), "docs/a");
    assert_eq!(ArgPath::default().path(), "");
}

#[test]
fn generated_ids_are_ten_alphanumerics() {
    let id = generate_id(None);
    assert_eq!(id.len(), 10);
    assert!(id.chars().all(|c| c.is_ascii_alphanumeric()));
    let short = generate_id(Some(4));
    assert_eq!(short.len(), 4);
}

#[test]
fn numbers_render_in_decimal() {
    assert_eq!(u64_to_string(0), "0");
    assert_eq!(u64_to_string(7), "7");
    assert_eq!(u64_to_string(1234), "1234");
    assert_eq!(u64_to_string(16777216), "16777216");
}

#[test]
fn local_paths_join_under_the_root() {
    let local = Local { root: "/data".to_string() };
    assert_eq!(local.full_path(""), "/data");
    assert_eq!(local.full_path("docs/a.txt"), "/data/docs/a.txt");
    assert_eq!(local.full_path("docs\\a.txt"), "/data/docs/a.txt");
}

#[test]
fn client_loop_follows_the_server() {
    let init = JsonInitializeUpload {
        name: "a.bin".to_string(),
        size: 2 * CHUNK_SIZE + 5,
        chunk_size: CHUNK_SIZE,
    };
    let ready = JsonChunkIndex { chunk_index: 0 };
    let mut client = UploadClient::new(&init, &ready);
    assert_eq!(client.total_chunks, 3);
    assert_eq!(client.next_offset(), 0);
    client.chunk_sent();
    assert_eq!(client.on_server_event(&ServerEvent::Next), ClientAction::Continue);
    assert_eq!(client.next_offset(), CHUNK_SIZE);
    client.chunk_sent();
    // the server did not accept that one: it moves the client back
    assert_eq!(
        client.on_server_event(&ServerEvent::SetChunkIndex(1)),
        ClientAction::Continue
    );
    assert_eq!(client.next_offset(), CHUNK_SIZE);
    client.chunk_sent();
    assert_eq!(client.on_server_event(&ServerEvent::Next), ClientAction::Continue);
    client.chunk_sent();
    assert_eq!(
        client.on_server_event(&ServerEvent::UploadComplete),
        ClientAction::Done
    );
    assert_eq!(
        client.on_server_event(&ServerEvent::Unexpected),
        ClientAction::Fail
    );
}

#[test]
fn resumed_client_starts_where_the_server_says() {
    let init = JsonInitializeUpload {
        name: "a.bin".to_string(),
        size: 2 * CHUNK_SIZE,
        chunk_size: CHUNK_SIZE,
    };
    let ready = JsonChunkIndex { chunk_index: 1 };
    let client = UploadClient::new(&init, &ready);
    assert_eq!(client.chunk_index, 1);
    assert_eq!(client.next_offset(), CHUNK_SIZE);
}
