use atomr_worlds_client::cli::{parse_seed, Backend, Cli, WorldGenArg};
use atomr_worlds_client::host_backend::{backend_failure, build_backend, BackendPlan};

#[test]
fn seeds_are_hex_or_decimal() {
    assert_eq!(parse_seed("0xDEADBEEFCAFEF00D"), Ok(0xDEAD_BEEF_CAFE_F00D));
    assert_eq!(parse_seed("0Xff"), Ok(255));
    assert_eq!(parse_seed("\t0xDeadBeef "), Ok(0xDEAD_BEEF));
    assert_eq!(parse_seed(" 42\n"), Ok(42));
    assert_eq!(parse_seed("+7"), Ok(7));
    assert_eq!(parse_seed("18446744073709551615"), Ok(u64::MAX));
}

#[test]
fn bad_seeds_say_why() {
    let err = |s: &str| parse_seed(s).unwrap_err();
    for (text, radix) in [("", 10), ("x", 10), ("-1", 10), ("+", 10), ("18446744073709551616", 10)] {
        let std = u64::from_str_radix(text, radix).unwrap_err();
        assert_eq!(err(text), format!("invalid decimal seed: {std}"));
    }
    for text in ["", "g", "10000000000000000"] {
        let std = u64::from_str_radix(text, 16).unwrap_err();
        assert_eq!(err(&format!("0x{text}")), format!("invalid hex seed: {std}"));
    }
}

#[test]
fn the_backend_follows_the_options() {
    let mut cli = Cli::default();
    assert_eq!(cli.seed, 0xDEAD_BEEF_CAFE_F00D);
    cli.world_gen = WorldGenArg::Ice;
    let Ok(BackendPlan::Local { root_seed, ice }) = build_backend(&cli) else { panic!("a local host") };
    assert!(ice && root_seed == cli.seed);
    cli.backend = Backend::Remote;
    assert_eq!(
        build_backend(&cli).err().unwrap(),
        "--connect <server_path> required for --backend remote"
    );
    cli.backend = Backend::Cluster;
    assert_eq!(
        build_backend(&cli).err().unwrap(),
        "--connect <member_server_path> required for --backend cluster"
    );
    cli.connect = Some(String::from("akka://w"));
    let Ok(BackendPlan::Remote(plan)) = build_backend(&cli) else { panic!("a remote host") };
    assert_eq!(plan.server_path, "akka://w");
    assert_eq!(plan.bind, "127.0.0.1:0");
    assert_eq!((plan.request_timeout_secs, plan.subscriber_capacity), (10, 256));
    assert_eq!(backend_failure(Backend::Local, "x"), "LocalHost: x");
    assert_eq!(backend_failure(Backend::Remote, "x"), "RemoteHost: x");
    assert_eq!(backend_failure(Backend::Cluster, "x"), "RemoteHost (cluster): x");
}
