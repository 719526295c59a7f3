use instancer::config::{
    keep_deployable, parse_ttl, resolve_challenges, ChallengeConfig, DatabaseConfig, DeployerConfig, DiscordConfig,
    InstancerConfig, SettingsConfig,
};
use instancer::discord::{avatar_url, has_required_scopes, is_guild_member, new_user, Guild, User};
use instancer::models::TimeSinceEpoch;

#[test]
fn ttl_notation() {
    assert_eq!(parse_ttl("90s"), Some(90));
    assert_eq!(parse_ttl("15m"), Some(900));
    assert_eq!(parse_ttl("2h"), Some(7200));
    assert_eq!(parse_ttl("1d"), Some(86400));
    assert_eq!(parse_ttl("10s"), Some(10));
    assert_eq!(parse_ttl("4294967295s"), Some(u32::MAX));
}

#[test]
fn malformed_ttl_is_rejected() {
    for bad in ["", "s", "0s", "05m", "10", "10x", "1.5h", "-1s", "1 s", "4294967296s", "49711d", "99999999999999999999s"] {
        assert_eq!(parse_ttl(bad), None, "{bad}");
    }
}

fn config() -> InstancerConfig {
    let challenge = |name: &str, deployer: &str| ChallengeConfig {
        name: name.to_string(),
        description: None,
        ttl: 60,
        deployer: deployer.to_string(),
    };
    InstancerConfig {
        settings: SettingsConfig { max_concurrent_challenges: 3, worker_count: 2, listen_on: "0.0.0.0:3000".to_string() },
        discord: DiscordConfig {
            client_id: "id".to_string(),
            client_secret: "client-secret".to_string(),
            redirect_url: "http://localhost/login".to_string(),
            server_id: "42".to_string(),
        },
        database: DatabaseConfig { file_path: "db.sqlite".to_string() },
        deployers: vec![
            ("docker".to_string(), DeployerConfig { path: "/opt/docker.sh".to_string() }),
            ("vm".to_string(), DeployerConfig { path: "/opt/vm.sh".to_string() }),
        ],
        challenges: vec![
            ("web".to_string(), challenge("Web", "docker")),
            ("pwn".to_string(), challenge("Pwn", "missing")),
            ("rev".to_string(), challenge("Rev", "vm")),
        ],
    }
}

#[test]
fn catalog_keeps_configured_deployers() {
    let resolved = resolve_challenges(&config());
    let ids: Vec<&str> = resolved.iter().map(|c| c.id.as_str()).collect();
    assert_eq!(ids, vec!["web", "rev"]);
    assert_eq!(resolved[1].deployer_path, "/opt/vm.sh");
    assert_eq!(resolved[0].name, "Web");
    let kept = keep_deployable(&resolved, &vec![false, true]);
    assert_eq!(kept.len(), 1);
    assert_eq!(kept[0].id, "rev");
}

#[test]
fn login_checks() {
    assert!(has_required_scopes(&vec!["guilds".to_string(), "identify".to_string()]));
    assert!(!has_required_scopes(&vec!["identify".to_string()]));
    let guilds = vec![Guild { id: "1".to_string() }, Guild { id: "42".to_string() }];
    assert!(is_guild_member(&guilds, "42"));
    assert!(!is_guild_member(&guilds, "4"));
}

#[test]
fn first_login_makes_a_user() {
    let account = User { id: "7".to_string(), username: "ann".to_string(), global_name: None, avatar: Some("abc".to_string()) };
    let user = new_user(account, TimeSinceEpoch(123));
    assert_eq!((user.id.as_str(), user.display_name.as_str(), user.instance_count), ("7", "ann", 0));
    assert_eq!(user.creation_time, TimeSinceEpoch(123));
    let account = User { id: "8".to_string(), username: "bob".to_string(), global_name: Some("Bob B".to_string()), avatar: None };
    assert_eq!(new_user(account, TimeSinceEpoch(0)).display_name, "Bob B");
}

#[test]
fn avatar_urls() {
    assert_eq!(avatar_url("7", &Some("abc".to_string())), "https://cdn.discordapp.com/avatars/7/abc.png");
    assert_eq!(avatar_url("7", &None), "https://discordapp.com/assets/a0180771ce23344c2a95.png");
}
