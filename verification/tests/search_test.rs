use portkey::models::Server;
use portkey::search::search_servers;
use portkey::text::ssh_config_text;

fn server(name: &str, host: &str, port: u16, user: &str) -> Server {
    Server::new(
        name.to_string(),
        host.to_string(),
        port,
        user.to_string(),
        "pw".to_string(),
        None,
    )
}

#[test]
fn search_finds_matching_servers_only() {
    let servers = vec![
        server("prod-db", "10.0.0.1", 5432, "admin"),
        server("staging-web", "10.0.0.2", 80, "deploy"),
        server("prod-web", "10.0.0.3", 80, "deploy"),
    ];
    let results = search_servers(&servers, "prod");
    let names: Vec<&str> = results.iter().map(|(_, i)| servers[*i].name.as_str()).collect();
    assert_eq!(names.len(), 2);
    assert!(names.contains(&"prod-db"));
    assert!(names.contains(&"prod-web"));

    assert!(search_servers(&servers, "zzzqqq").is_empty());
}

#[test]
fn search_orders_by_score_then_insertion() {
    let servers = vec![
        server("alpha", "x.example", 22, "root"),
        server("weblog", "y.example", 22, "root"),
        server("web", "z.example", 22, "root"),
    ];
    let results = search_servers(&servers, "web");
    assert!(results.len() >= 2);
    for k in 1..results.len() {
        let (s_prev, i_prev) = results[k - 1];
        let (s_here, i_here) = results[k];
        assert!(s_prev > s_here || (s_prev == s_here && i_prev < i_here));
    }
    // The exact-name hit scores at least as well as the longer name.
    let pos_exact = results.iter().position(|(_, i)| *i == 2).unwrap();
    let pos_longer = results.iter().position(|(_, i)| *i == 1).unwrap();
    assert!(results[pos_exact].0 >= results[pos_longer].0);
}

#[test]
fn ssh_config_renders_every_server() {
    let servers = vec![
        server("db1", "10.0.0.5", 5432, "admin"),
        server("web", "example.com", 8022, "deploy"),
    ];
    let text = ssh_config_text(&servers);
    let expected = "Host db1\n  HostName 10.0.0.5\n  User admin\n  Port 5432\n\n\
                    Host web\n  HostName example.com\n  User deploy\n  Port 8022\n\n";
    assert_eq!(text, expected);
}

#[test]
fn ssh_config_of_no_servers_is_empty() {
    let servers: Vec<Server> = Vec::new();
    assert_eq!(ssh_config_text(&servers), "");
}

#[test]
fn uuid_rendering_matches_external_form() {
    // The library renders identities exactly as the uuid crate prints
    // them: lowercase hexadecimal, hyphenated 8-4-4-4-12.
    let v: u128 = 0x550e8400_e29b_41d4_a716_446655440000;
    assert_eq!(
        portkey::search::uuid_string(v),
        "550e8400-e29b-41d4-a716-446655440000"
    );
    assert_eq!(
        portkey::search::uuid_string(0),
        "00000000-0000-0000-0000-000000000000"
    );
}

#[test]
fn lookup_by_name_ignores_ascii_case() {
    let servers = vec![
        server("Alpha", "a.example", 22, "root"),
        server("BETA", "b.example", 22, "root"),
    ];
    assert_eq!(
        portkey::search::find_server_by_name_or_id(&servers, "alpha"),
        Some(0)
    );
    assert_eq!(
        portkey::search::find_server_by_name_or_id(&servers, "beta"),
        Some(1)
    );
    assert_eq!(portkey::search::find_server_by_name_or_id(&servers, "gamma"), None);
}

#[test]
fn lookup_by_identity_prefix() {
    let servers = vec![
        server("one", "a.example", 22, "root"),
        server("two", "b.example", 22, "root"),
    ];
    let rendered = portkey::search::uuid_string(servers[1].id);
    let prefix = &rendered[..8];
    let found = portkey::search::find_server_by_name_or_id(&servers, prefix);
    // The prefix picks the record out unless the first record's identity
    // happens to share it, which eight fresh hex digits all but rule out.
    assert!(found == Some(1) || portkey::search::uuid_string(servers[0].id).starts_with(prefix));
}
