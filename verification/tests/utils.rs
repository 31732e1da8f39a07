use xdrippi::utils::{
    getsockopt_outcome, poll_outcome, send_outcome, setsockopt_outcome, MSG_DONTWAIT, POLLIN,
};
use xdrippi::Error;
use xdrippi::utils::{interface_index_path, parse_interface_index};

#[test]
fn poll_and_send_flags_are_those_of_the_system() {
    assert_eq!(POLLIN, libc::POLLIN);
    assert_eq!(MSG_DONTWAIT, libc::MSG_DONTWAIT);
}

#[test]
fn getsockopt_outcome_checks_result_then_size() {
    assert_eq!(getsockopt_outcome(0, 0, 283, 7, 24, 24), Ok(()));
    assert_eq!(getsockopt_outcome(5, 11, 283, 7, 24, 24), Ok(()));
    assert_eq!(
        getsockopt_outcome(-1, 9, 283, 7, 24, 24),
        Err(Error::SocketGetOptionFailure { error: 9, level: 283, name: 7 })
    );
    assert_eq!(
        getsockopt_outcome(-1, 9, 283, 7, 24, 16),
        Err(Error::SocketGetOptionFailure { error: 9, level: 283, name: 7 })
    );
    assert_eq!(
        getsockopt_outcome(0, 0, 283, 8, 4, 8),
        Err(Error::SocketGetOptionSizeFailure { expecting: 4, received: 8 })
    );
}

#[test]
fn setsockopt_outcome_checks_result() {
    assert_eq!(setsockopt_outcome(0, 0, 283, 4), Ok(()));
    assert_eq!(setsockopt_outcome(1, 22, 283, 4), Ok(()));
    assert_eq!(
        setsockopt_outcome(-1, 22, 283, 4),
        Err(Error::SocketSetOptionFailure { error: 22, level: 283, name: 4 })
    );
    assert_eq!(
        setsockopt_outcome(i32::MIN, 1, 1, 2),
        Err(Error::SocketSetOptionFailure { error: 1, level: 1, name: 2 })
    );
}

#[test]
fn poll_fails_unless_readable() {
    assert_eq!(poll_outcome(0), Err(Error::PollFailure));
    assert_eq!(poll_outcome(libc::POLLOUT), Err(Error::PollFailure));
    assert_eq!(poll_outcome(libc::POLLERR | libc::POLLHUP), Err(Error::PollFailure));
    assert_eq!(poll_outcome(libc::POLLIN), Ok(()));
    assert_eq!(poll_outcome(libc::POLLIN | libc::POLLOUT), Ok(()));
    assert_eq!(poll_outcome(-1), Ok(()));
}

#[test]
fn send_fails_on_negative_result() {
    assert_eq!(send_outcome(0, 0), Ok(()));
    assert_eq!(send_outcome(12, 5), Ok(()));
    assert_eq!(send_outcome(-1, 11), Err(Error::SocketSendFailure { error: 11 }));
}


#[test]
fn interface_index_path_is_under_sysfs() {
    assert_eq!(interface_index_path("test1"), "/sys/class/net/test1/ifindex");
    assert_eq!(interface_index_path("eth0"), "/sys/class/net/eth0/ifindex");
    assert_eq!(interface_index_path(""), "/sys/class/net//ifindex");
}

#[test]
fn interface_index_is_a_trimmed_decimal_number() {
    assert_eq!(parse_interface_index("3\n"), Some(3));
    assert_eq!(parse_interface_index("0"), Some(0));
    assert_eq!(parse_interface_index("  42\t\r\n"), Some(42));
    assert_eq!(parse_interface_index("007"), Some(7));
    assert_eq!(parse_interface_index("+15"), Some(15));
    assert_eq!(parse_interface_index("4294967295"), Some(u32::MAX));
    assert_eq!(parse_interface_index("\u{a0}12\u{2003}"), Some(12));
}

#[test]
fn interface_index_that_is_no_number_is_refused() {
    assert_eq!(parse_interface_index(""), None);
    assert_eq!(parse_interface_index("   \n"), None);
    assert_eq!(parse_interface_index("+"), None);
    assert_eq!(parse_interface_index("-1"), None);
    assert_eq!(parse_interface_index("++1"), None);
    assert_eq!(parse_interface_index("1 2"), None);
    assert_eq!(parse_interface_index("12a"), None);
    assert_eq!(parse_interface_index("a12"), None);
    assert_eq!(parse_interface_index("0x10"), None);
    assert_eq!(parse_interface_index("4294967296"), None);
    assert_eq!(parse_interface_index("99999999999999999999999999"), None);
    assert_eq!(parse_interface_index("1\u{200b}"), None);
    assert_eq!(parse_interface_index("١٢"), None);
}

#[test]
fn interface_index_parses_as_the_standard_library_does() {
    let samples = [
        "3\n", " 3", "3 ", "", " ", "+", "+0", "-0", "+ 1", "1+", "00", "4294967295",
        "4294967296", "42949672950", "\t\n\u{b}\u{c}\r 5 \u{85}\u{1680}", "\u{2028}6\u{2029}",
        "\u{202f}7\u{205f}\u{3000}", "\u{feff}8", "9\u{0}", "१", "1_000", "1e3", "٣",
    ];
    for sample in samples {
        assert_eq!(parse_interface_index(sample), sample.trim().parse::<u32>().ok(), "{sample:?}");
    }
}
