//! Limits, margins and repricing on plain figures.

use oracle_escrow::resources::{
    over_margin, reprice, splits, tightest, try_reprice, tx_size, Measurement, Metered, Network,
    Search, Workers,
};
use oracle_escrow::settings::{self, mainnet, num, params, parse_number, setting, Json};

fn network() -> Network {
    Network {
        name: "testing".into(),
        ledger: 7,
        protocol: 23,
        tx_max_instructions: 100_000_000,
        tx_memory_limit: 41_943_040,
        tx_max_footprint_entries: 100,
        tx_max_disk_read_entries: 100,
        tx_max_write_entries: 50,
        tx_max_disk_read_bytes: 200_000,
        tx_max_write_bytes: 132_096,
        tx_max_contract_events_size_bytes: 16_384,
        tx_max_size_bytes: 132_096,
        cpu_params: vec![(4, 0), (434, 16)],
        mem_params: vec![(0, 0), (16, 128)],
    }
}

fn measurement() -> Measurement {
    Measurement {
        workers: 3,
        losers: 2,
        kind: Workers::New,
        host_instructions: 5_000_000,
        mainnet_instructions: 6_000_000,
        host_mem_bytes: 2_000_000,
        mainnet_mem_bytes: 1_000_000,
        footprint_entries: 18,
        disk_read_entries: 1,
        write_entries: 14,
        disk_read_bytes: 300,
        write_bytes: 2_000,
        events_bytes: 400,
        tx_size_bytes: 5_000,
        tracked_instructions: 5_100_000,
    }
}

#[test]
fn usage_adds_the_allowances_and_takes_the_higher_count() {
    let rows = measurement().usage(&network());
    assert_eq!(rows[0], ("instructions", 7_000_000, 100_000_000));
    assert_eq!(rows[1], ("memory", 2_000_000, 41_943_040));
    assert_eq!(rows[2], ("footprint entries", 20, 100));
    assert_eq!(rows[3], ("disk read entries", 1, 100));
    assert_eq!(rows[4], ("write entries", 15, 50));
    assert_eq!(rows[5], ("disk read bytes", 300, 200_000));
    assert_eq!(rows[6], ("write bytes", 2_000, 132_096));
    assert_eq!(rows[7], ("event bytes", 400, 16_384));
    assert_eq!(rows[8], ("tx size (est.)", 5_000, 132_096));
}

#[test]
fn the_binding_dimension_is_the_tightest() {
    assert_eq!(measurement().binding(&network()), ("write entries", 15, 50));
    let mut n = network();
    n.tx_max_contract_events_size_bytes = 400;
    assert_eq!(measurement().binding(&n), ("event bytes", 400, 400));
    n.tx_max_size_bytes = 5_000;
    assert_eq!(measurement().binding(&n), ("event bytes", 400, 400), "the first of equals");
}

#[test]
fn margins_are_half_of_each_limit() {
    assert!(!over_margin(50, 100));
    assert!(over_margin(51, 100));
    assert!(over_margin(3, 5));
    assert!(!over_margin(2, 5));
    assert!(over_margin(u64::MAX, u64::MAX));
}

#[test]
fn splits_cover_the_extremes_and_the_middle() {
    assert_eq!(splits(0), vec![(0, 0)]);
    assert_eq!(splits(1), vec![(1, 0)]);
    assert_eq!(splits(2), vec![(2, 0), (1, 1), (1, 1)]);
    assert_eq!(splits(5), vec![(5, 0), (1, 4), (3, 2)]);
    assert_eq!(splits(64), vec![(64, 0), (1, 63), (32, 32)]);
    assert_eq!(splits(u32::MAX)[2], (2_147_483_648, 2_147_483_647));
}

#[test]
fn repricing_uses_seven_fractional_bits() {
    let n = network();
    assert_eq!(reprice(&vec![(10, 0), (2, 100)], &n.cpu_params), 40 + 868 + 12);
    assert_eq!(reprice(&vec![(0, 9), (1, 3)], &n.mem_params), 16 + 3);
    assert_eq!(reprice(&vec![(1, 0), (0, 5), (0, 5)], &vec![(7, 0)]), 7);
}

#[test]
fn the_size_estimate_counts_arguments_twice() {
    assert_eq!(tx_size(100, 40, 18), 1_024 + 2 * (12 + 140) + 128 * 20);
}

#[test]
fn a_search_halves_its_range_to_the_answer() {
    for answer in 1..=40u32 {
        let mut search = Search { lo: 1, hi: 40 };
        let mut probes = 0;
        while let Some(size) = search.probe() {
            search.report(size, size <= answer);
            probes += 1;
        }
        assert_eq!(search.lo, answer);
        assert!(probes <= 6);
    }
    assert_eq!(Search { lo: 1, hi: 40 }.probe(), Some(21));
}

fn metered() -> Metered {
    Metered {
        instructions: 1_000,
        mem_bytes: 2_000,
        disk_read_entries: 3,
        memory_read_entries: 4,
        write_entries: 5,
        disk_read_bytes: 600,
        write_bytes: 700,
        contract_events_size_bytes: 80,
        counters: vec![(10, 0), (2, 256)],
        cpu: vec![400, 900],
        workers_bytes: 50,
        losers_bytes: 30,
    }
}

#[test]
fn figures_out_of_range_give_no_measurement() {
    let n = network();
    let checked = |m: &Metered| Measurement::checked(2, 1, Workers::New, m, &n);
    assert_eq!(checked(&metered()).unwrap().mainnet_instructions, 940);
    // A cost type that the network does not price.
    assert!(checked(&Metered { counters: vec![(1, 0), (1, 0), (1, 0)], ..metered() }).is_none());
    assert!(checked(&Metered { counters: vec![(1, 0), (1, 0), (0, 9)], ..metered() }).is_some());
    assert!(checked(&Metered { counters: vec![(u64::MAX, 0)], ..metered() }).is_none());
    assert!(checked(&Metered { counters: vec![(0, 0), (1, u64::MAX)], ..metered() }).is_none());
    assert!(checked(&Metered { cpu: vec![u64::MAX, 1], ..metered() }).is_none());
    assert!(checked(&Metered { cpu: vec![u64::MAX, 0], ..metered() }).is_some());
    assert!(checked(&Metered { disk_read_entries: u32::MAX, ..metered() }).is_none());
    assert!(checked(&Metered { workers_bytes: u64::MAX, ..metered() }).is_none());
    assert!(checked(&Metered { losers_bytes: u64::MAX / 2, ..metered() }).is_none());
    assert_eq!(try_reprice(&vec![(10, 0), (2, 256)], &n.cpu_params), Some(940));
    assert_eq!(try_reprice(&vec![(u64::MAX / 4, 0)], &n.cpu_params), Some(u64::MAX - 3));
    assert_eq!(try_reprice(&vec![(u64::MAX / 4 + 1, 0)], &n.cpu_params), None);
}

#[test]
fn a_measurement_is_put_together_from_what_was_metered() {
    let m = Measurement::new(2, 1, Workers::Returning, &metered(), &network());
    assert_eq!((m.workers, m.losers, m.kind), (2, 1, Workers::Returning));
    assert_eq!(m.host_instructions, 1_000);
    assert_eq!(m.host_mem_bytes, 2_000);
    // 4 * 10 + (434 * 2 + 16 * 256 / 128)
    assert_eq!(m.mainnet_instructions, 40 + 868 + 32);
    // 0 * 10 + (16 * 2 + 128 * 256 / 128)
    assert_eq!(m.mainnet_mem_bytes, 32 + 256);
    assert_eq!(m.footprint_entries, 7);
    assert_eq!(m.disk_read_entries, 3);
    assert_eq!(m.write_entries, 5);
    assert_eq!(m.disk_read_bytes, 600);
    assert_eq!(m.write_bytes, 700);
    assert_eq!(m.events_bytes, 80);
    assert_eq!(m.tracked_instructions, 1_300);
    assert_eq!(m.tx_size_bytes, 1_024 + 2 * (12 + 50 + 30) + 128 * (7 + 2));
}

#[test]
fn the_tightest_of_several_rows_is_the_first_of_the_worst() {
    assert_eq!(tightest(&[("a", 1, 2), ("b", 3, 4), ("c", 6, 8), ("d", 1, 3)]), 1);
    assert_eq!(tightest(&[("a", 0, 0), ("b", 0, 5)]), 0);
    assert_eq!(tightest(&[("a", 5, 5), ("b", 1, 0)]), 1);
}

fn parse(text: &str) -> Json {
    settings::parse(text).unwrap()
}

const SNAPSHOT: &str = r#"{
    "network": "mainnet",
    "latest_ledger": 58000000,
    "protocol_version": 23,
    "settings": { "updated_entry": [
        { "contract_max_size_bytes": 131072 },
        { "contract_compute_v0": { "tx_max_instructions": "100000000", "tx_memory_limit": 41943040 } },
        { "contract_ledger_cost_v0": {
            "tx_max_disk_read_entries": 100, "tx_max_write_ledger_entries": 50,
            "tx_max_disk_read_bytes": 200000, "tx_max_write_bytes": 132096 } },
        { "contract_ledger_cost_ext_v0": { "tx_max_footprint_entries": 400 } },
        { "contract_events_v0": { "tx_max_contract_events_size_bytes": 16384 } },
        { "contract_bandwidth_v0": { "tx_max_size_bytes": 132097 } },
        { "contract_cost_params_cpu_instructions": [
            { "ext": "v0", "const_term": "4", "linear_term": "0" },
            { "ext": "v0", "const_term": "434", "linear_term": "16" } ] },
        { "contract_cost_params_memory_bytes": [
            { "ext": "v0", "const_term": "0", "linear_term": "0" },
            { "ext": "v0", "const_term": "16", "linear_term": "128" } ] }
    ] }
}"#;

#[test]
fn a_snapshot_is_read_entry_by_entry() {
    let n = settings::network(SNAPSHOT).unwrap();
    assert_eq!(n.name, "mainnet");
    assert_eq!(n.ledger, 58_000_000);
    assert_eq!(n.protocol, 23);
    assert_eq!(n.tx_max_instructions, 100_000_000);
    assert_eq!(n.tx_memory_limit, 41_943_040);
    assert_eq!(n.tx_max_footprint_entries, 400);
    assert_eq!(n.tx_max_disk_read_entries, 100);
    assert_eq!(n.tx_max_write_entries, 50);
    assert_eq!(n.tx_max_disk_read_bytes, 200_000);
    assert_eq!(n.tx_max_write_bytes, 132_096);
    assert_eq!(n.tx_max_contract_events_size_bytes, 16_384);
    assert_eq!(n.tx_max_size_bytes, 132_097);
    assert_eq!(n.cpu_params, vec![(4, 0), (434, 16)]);
    assert_eq!(n.mem_params, vec![(0, 0), (16, 128)]);
}

#[test]
fn a_snapshot_with_anything_missing_is_not_read() {
    for name in [
        "\"network\"",
        "latest_ledger",
        "protocol_version",
        "updated_entry",
        "contract_compute_v0",
        "tx_memory_limit",
        "contract_ledger_cost_v0",
        "tx_max_write_ledger_entries",
        "contract_ledger_cost_ext_v0",
        "contract_events_v0",
        "contract_bandwidth_v0",
        "contract_cost_params_cpu_instructions",
        "contract_cost_params_memory_bytes",
    ] {
        let renamed = if name.starts_with('"') { "\"other\"" } else { "other" };
        let doc = parse(&SNAPSHOT.replace(name, renamed));
        assert!(mainnet(&doc).is_none(), "{name}");
    }
    assert!(mainnet(&parse(&SNAPSHOT.replace("\"434\"", "\"434x\""))).is_none());
    assert!(mainnet(&Json::Null).is_none());
}

#[test]
fn settings_come_from_the_first_entry_that_has_them() {
    let doc = parse(
        r#"{"settings": {"updated_entry": [1, {"a": 1}, {"b": "2", "a": 3}, {"b": 4}]}}"#,
    );
    assert_eq!(num(setting(&doc, "a").unwrap()), Some(1));
    assert_eq!(num(setting(&doc, "b").unwrap()), Some(2));
    assert!(setting(&doc, "c").is_none());
    assert!(setting(&parse("[]"), "a").is_none());
    assert!(params(&doc, "a").is_none());
    let doc = parse(
        r#"{"settings": {"updated_entry": [{"a": [{"const_term": 1, "linear_term": "2"}]}]}}"#,
    );
    assert_eq!(params(&doc, "a"), Some(vec![(1, 2)]));
}

#[test]
fn numbers_are_read_as_numbers_or_as_texts() {
    assert_eq!(parse_number("0"), Some(0));
    assert_eq!(parse_number("+17"), Some(17));
    assert_eq!(parse_number("007"), Some(7));
    assert_eq!(parse_number("18446744073709551615"), Some(u64::MAX));
    assert_eq!(parse_number("18446744073709551616"), None);
    assert_eq!(parse_number("99999999999999999999999x"), None);
    for text in ["", "+", "-1", "-0", " 1", "1 ", "1_000", "0x10", "++1", "\u{663}"] {
        assert_eq!(parse_number(text), None, "{text}");
        assert_eq!(parse_number(text), text.parse::<u64>().ok(), "{text}");
    }
    assert_eq!(num(&Json::Number(Some(5))), Some(5));
    assert_eq!(num(&Json::Text("6".to_string())), Some(6));
    assert_eq!(num(&Json::Number(None)), None);
    assert_eq!(num(&parse("-3")), None);
    assert_eq!(num(&parse("1.5")), None);
    assert_eq!(num(&Json::Bool(true)), None);
    assert_eq!(num(&Json::Null), None);
}

#[test]
fn a_text_is_read_as_a_document() {
    let doc = parse(r#"{"b": [null, true, "x\u0041", 7, -7, 1.5, {}], "a": [], "b2": 18446744073709551615}"#);
    assert_eq!(
        format!("{doc:?}"),
        format!(
            "{:?}",
            Json::Object(vec![
                ("a".to_string(), Json::List(vec![])),
                (
                    "b".to_string(),
                    Json::List(vec![
                        Json::Null,
                        Json::Bool(true),
                        Json::Text("xA".to_string()),
                        Json::Number(Some(7)),
                        Json::Number(None),
                        Json::Number(None),
                        Json::Object(vec![]),
                    ])
                ),
                ("b2".to_string(), Json::Number(Some(u64::MAX))),
            ])
        )
    );
    for text in ["", "{", "[1,]", "nul", "{} {}"] {
        assert!(settings::parse(text).is_none(), "{text}");
        assert!(settings::network(text).is_none(), "{text}");
    }
    assert!(settings::network("{}").is_none());
}
