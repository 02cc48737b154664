use rox::args::{Args, Protocol};

fn words(list: &[&str]) -> Vec<String> {
    list.iter().map(|s| s.to_string()).collect()
}

#[test]
fn it_can_parse_help() {
    let it = words(&["rox", "--help"]);

    let args = Args::parse(&it).unwrap();

    assert_eq!(args.help, true);
}

#[test]
fn it_can_parse_h() {
    let it = words(&["rox", "-h"]);

    let args = Args::parse(&it).unwrap();

    assert_eq!(args.help, true);
}

#[test]
fn it_can_parse_version() {
    let it = words(&["rox", "--version"]);

    let args = Args::parse(&it).unwrap();

    assert_eq!(args.version, true);
}

#[test]
fn it_can_parse_v() {
    let it = words(&["rox", "-v"]);

    let args = Args::parse(&it).unwrap();

    assert_eq!(args.version, true);
}

#[test]
fn it_can_prase_port() {
    let it = words(&["rox", "--port", "9000"]);

    let args = Args::parse(&it).unwrap();

    assert_eq!(args.port, 9000);
}

#[test]
fn it_can_prase_p() {
    let it = words(&["rox", "-p", "7000"]);

    let args = Args::parse(&it).unwrap();

    assert_eq!(args.port, 7000);
}

#[test]
fn it_can_prase_protocol() {
    let it = words(&["rox", "--protocol", "HTTP"]);

    let args = Args::parse(&it).unwrap();

    assert_eq!(args.protocol, Protocol::HTTP);
}

#[test]
fn defaults_hold_without_options() {
    let args = Args::parse(&words(&["rox"])).unwrap();
    assert_eq!(args.port, 8080);
    assert_eq!(args.protocol, Protocol::HTTP);
    assert_eq!(args.help, false);
    assert_eq!(args.version, false);
    assert_eq!(args.user, None);

    let args = Args::parse(&words(&[])).unwrap();
    assert_eq!(args.port, 8080);
}

#[test]
fn values_may_follow_an_equals_sign() {
    let args = Args::parse(&words(&[
        "rox",
        "--port=9000",
        "-P=Http",
        "--user=alice:secret",
    ]))
    .unwrap();
    assert_eq!(args.port, 9000);
    assert_eq!(args.protocol, Protocol::HTTP);
    assert_eq!(args.user, Some("alice:secret".to_string()));

    let args = Args::parse(&words(&["rox", "-p=1", "-u", "bob:pw", "-h", "-v"])).unwrap();
    assert_eq!(args.port, 1);
    assert_eq!(args.user, Some("bob:pw".to_string()));
    assert!(args.help && args.version);
}

#[test]
fn the_program_name_is_passed_over() {
    let args = Args::parse(&words(&["--help"])).unwrap();
    assert_eq!(args.help, false);
}

#[test]
fn what_cannot_be_taken_is_said() {
    assert_eq!(
        Args::parse(&words(&["rox", "--bogus"])).unwrap_err(),
        "🚨 Invalid argument: --bogus 🚨"
    );
    assert_eq!(
        Args::parse(&words(&["rox", "-pfoo"])).unwrap_err(),
        "🚨 Invalid argument: -pfoo 🚨"
    );
    assert_eq!(
        Args::parse(&words(&["rox", "-p"])).unwrap_err(),
        "🚨 Error: no port provided 🚨"
    );
    assert_eq!(
        Args::parse(&words(&["rox", "--protocol"])).unwrap_err(),
        "🚨 Error: no protocol provided 🚨"
    );
    assert_eq!(
        Args::parse(&words(&["rox", "-u"])).unwrap_err(),
        "🚨 Error: no user provided 🚨"
    );
    assert_eq!(
        Args::parse(&words(&["rox", "-p", "http"])).unwrap_err(),
        "Error parsing port"
    );
    assert_eq!(
        Args::parse(&words(&["rox", "-p", "65536"])).unwrap_err(),
        "Error parsing port"
    );
    assert_eq!(
        Args::parse(&words(&["rox", "--port="])).unwrap_err(),
        "Error parsing port"
    );
    assert_eq!(
        Args::parse(&words(&["rox", "-P", "socks5"])).unwrap_err(),
        "🚨 Unknown protocol: socks5 🚨"
    );
}

#[test]
fn the_last_value_of_an_option_stands() {
    let args = Args::parse(&words(&["rox", "-p", "1", "--port", "+2"])).unwrap();
    assert_eq!(args.port, 2);
}
