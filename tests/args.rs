use ip_sniffer::args::{contains_str, parse_thread_count, ArgError, Args, Target, DEFAULT_THREADS};

fn words(ws: &[&str]) -> Vec<String> {
    ws.iter().map(|w| w.to_string()).collect()
}

const LOCAL: Target = Target::V4(0x7f00_0001);

#[test]
fn lone_address_uses_default_workers() {
    let a = Args::new(&words(&["sniff", "127.0.0.1"]), &vec![None, Some(LOCAL)]).unwrap();
    assert_eq!(a.flag, "");
    assert_eq!(a.ipaddr, LOCAL);
    assert_eq!(a.threads, DEFAULT_THREADS);
    assert_eq!(a.threads, 4);
}

#[test]
fn thread_flag_sets_worker_count() {
    let v6 = Target::V6(1);
    let a = Args::new(&words(&["sniff", "-t", "100", "::1"]), &vec![None, None, None, Some(v6)]).unwrap();
    assert_eq!(a.flag, "-t");
    assert_eq!(a.ipaddr, v6);
    assert_eq!(a.threads, 100);
}

#[test]
fn argument_counts_are_checked() {
    assert_eq!(Args::new(&words(&["sniff"]), &vec![None]).err(), Some(ArgError::NotEnoughArguments));
    let five = words(&["sniff", "-t", "4", "127.0.0.1", "x"]);
    assert_eq!(Args::new(&five, &vec![None; 5]).err(), Some(ArgError::TooManyArguments));
    let short = words(&["sniff", "-t", "4"]);
    assert_eq!(Args::new(&short, &vec![None; 3]).err(), Some(ArgError::NotEnoughArguments));
}

#[test]
fn help_flag_stops_before_scan() {
    assert_eq!(Args::new(&words(&["sniff", "-h"]), &vec![None, None]).err(), Some(ArgError::Help));
    assert_eq!(Args::new(&words(&["sniff", "-help"]), &vec![None, None]).err(), Some(ArgError::Help));
}

#[test]
fn malformed_address_is_rejected() {
    let bad = words(&["sniff", "999.1.1.1"]);
    assert_eq!(Args::new(&bad, &vec![None, None]).err(), Some(ArgError::InvalidSyntax));
    let bad_t = words(&["sniff", "-t", "4", "not-an-ip"]);
    assert_eq!(Args::new(&bad_t, &vec![None; 4]).err(), Some(ArgError::InvalidAddress));
}

#[test]
fn bad_thread_count_is_rejected() {
    for count in ["x", "", "65536", "-1", "+", "1.5"] {
        let w = words(&["sniff", "-t", count, "127.0.0.1"]);
        let r = Args::new(&w, &vec![None, None, None, Some(LOCAL)]);
        assert_eq!(r.err(), Some(ArgError::InvalidThreadCount), "count {:?}", count);
    }
}

#[test]
fn thread_counts_read_as_decimal() {
    assert_eq!(parse_thread_count("0"), Some(0));
    assert_eq!(parse_thread_count("+16"), Some(16));
    assert_eq!(parse_thread_count("007"), Some(7));
    assert_eq!(parse_thread_count("65535"), Some(65535));
    assert_eq!(parse_thread_count("65536"), None);
    assert_eq!(parse_thread_count("99999999999"), None);
    assert_eq!(parse_thread_count(" 1"), None);
    assert_eq!(parse_thread_count("-0"), None);
}

#[test]
fn infix_search() {
    assert!(contains_str("--threads", "-t"));
    assert!(contains_str("-h", "-h"));
    assert!(!contains_str("-", "-h"));
    assert!(contains_str("abc", ""));
    assert!(!contains_str("hx-", "-h"));
}

#[test]
fn error_messages_are_distinct() {
    let all = [
        ArgError::NotEnoughArguments,
        ArgError::TooManyArguments,
        ArgError::Help,
        ArgError::InvalidAddress,
        ArgError::InvalidThreadCount,
        ArgError::InvalidSyntax,
    ];
    for (i, a) in all.iter().enumerate() {
        for b in &all[i + 1..] {
            assert_ne!(a.message(), b.message());
        }
    }
    assert_eq!(ArgError::InvalidSyntax.message(), "invalid syntax");
}
