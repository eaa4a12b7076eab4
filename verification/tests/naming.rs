use load_balancing_lab::config::ConfigError;
use load_balancing_lab::naming::parse_selector_name;
use load_balancing_lab::selector::create_selector_by_name;
use load_balancing_lab::selector::HostSelector;
use load_balancing_lab::selector::SelectorKind;

#[test]
fn plain_names_are_read() {
    assert_eq!(parse_selector_name("RoundRobin"), Ok(SelectorKind::RoundRobin));
    assert_eq!(parse_selector_name("Random"), Ok(SelectorKind::Random));
    assert_eq!(parse_selector_name("LeastLoaded"), Ok(SelectorKind::LeastLoaded));
    assert_eq!(parse_selector_name("Hash"), Ok(SelectorKind::Hash));
}

#[test]
fn sampling_names_carry_their_number() {
    assert_eq!(parse_selector_name("PowerOfK[k=2]"), Ok(SelectorKind::PowerOfK(2)));
    assert_eq!(parse_selector_name("PowerOfK[k=12]"), Ok(SelectorKind::PowerOfK(12)));
    assert_eq!(parse_selector_name("PowerOfK[k=0]"), Ok(SelectorKind::PowerOfK(0)));
    assert_eq!(
        parse_selector_name("PowerOfKWithUpdates[k=3]"),
        Ok(SelectorKind::PowerOfKWithUpdates(3))
    );
    assert_eq!(
        parse_selector_name("PowerOfKWithUpdates[k=100]"),
        Ok(SelectorKind::PowerOfKWithUpdates(100))
    );
}

#[test]
fn numbers_are_read_as_the_standard_library_reads_them() {
    let texts = [
        "", "0", "7", "007", "+7", "+", "-7", "++7", "+-7", "7+", " 7", "7 ", "1_000", "0x10",
        "12a", "a12", "٣", "１２", "1.5", "18446744073709551615", "18446744073709551616",
        "4294967295", "4294967296", "99999999999999999999999999", "000000000000000000000000000005",
        "]", "k=2", "2]",
    ];
    for text in texts {
        let name = format!("PowerOfK[k={}]", text);
        let expected = match text.parse::<usize>() {
            Ok(k) => Ok(SelectorKind::PowerOfK(k)),
            Err(_) => Err(ConfigError::BadSampleSize),
        };
        assert_eq!(parse_selector_name(&name), expected, "{}", name);
        let name = format!("PowerOfKWithUpdates[k={}]", text);
        let expected = match text.parse::<usize>() {
            Ok(k) => Ok(SelectorKind::PowerOfKWithUpdates(k)),
            Err(_) => Err(ConfigError::BadSampleSize),
        };
        assert_eq!(parse_selector_name(&name), expected, "{}", name);
    }
}

#[test]
fn greatest_number_is_read() {
    let name = format!("PowerOfK[k={}]", usize::MAX);
    assert_eq!(parse_selector_name(&name), Ok(SelectorKind::PowerOfK(usize::MAX)));
}

#[test]
fn sampling_name_without_a_number_is_a_bad_sample_size() {
    assert_eq!(parse_selector_name("PowerOfK[k=]"), Err(ConfigError::BadSampleSize));
    assert_eq!(parse_selector_name("PowerOfK[k=two]"), Err(ConfigError::BadSampleSize));
    assert_eq!(parse_selector_name("PowerOfK[k=-1]"), Err(ConfigError::BadSampleSize));
    assert_eq!(parse_selector_name("PowerOfK[k=2]]"), Err(ConfigError::BadSampleSize));
    assert_eq!(parse_selector_name("PowerOfKWithUpdates[k=]"), Err(ConfigError::BadSampleSize));
}

#[test]
fn other_names_are_unknown() {
    let names = [
        "",
        "roundrobin",
        "RoundRobin ",
        " RoundRobin",
        "RoundRobinX",
        "Round",
        "Hashed",
        "HashSticky",
        "PowerOfK",
        "PowerOfK[k=",
        "PowerOfK[k=2",
        "PowerOfK[k=2] ",
        "PowerOfK[2]",
        "PowerOfK(k=2)",
        "PowerOfKWithUpdates",
        "PowerOfKWithUpdates[k=2",
        "PowerOfKWithFreshRead[k=2]",
        "]",
        "Ünknown",
    ];
    for name in names {
        assert_eq!(parse_selector_name(name), Err(ConfigError::UnknownSelector), "{}", name);
    }
}

#[test]
fn selector_is_created_by_name() {
    assert!(matches!(create_selector_by_name("RoundRobin"), Ok(HostSelector::RoundRobin(s)) if s.ptr == 0));
    assert!(matches!(create_selector_by_name("Random"), Ok(HostSelector::Random(_))));
    assert!(matches!(create_selector_by_name("LeastLoaded"), Ok(HostSelector::LeastLoaded(_))));
    assert!(matches!(create_selector_by_name("Hash"), Ok(HostSelector::Hash(_))));
    assert!(matches!(create_selector_by_name("PowerOfK[k=2]"), Ok(HostSelector::PowerOfK(s)) if s.k() == 2));
    assert!(matches!(
        create_selector_by_name("PowerOfKWithUpdates[k=5]"),
        Ok(HostSelector::PowerOfKWithUpdates(s)) if s.k() == 5
    ));
}

#[test]
fn unknown_selector_is_not_created() {
    assert!(matches!(create_selector_by_name("Fastest"), Err(ConfigError::UnknownSelector)));
    assert!(matches!(create_selector_by_name(""), Err(ConfigError::UnknownSelector)));
    assert!(matches!(create_selector_by_name("PowerOfK[k=x]"), Err(ConfigError::BadSampleSize)));
}
