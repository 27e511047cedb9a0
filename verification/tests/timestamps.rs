use agcli::timestamp::{MAX_RFC3339_EPOCH, parse_rfc3339_utc, pin_from_source_date_epoch, rfc3339_utc};

#[test]
fn source_date_epoch_pin_parses_and_clamps() {
    assert_eq!(pin_from_source_date_epoch("1700000000"), 1_700_000_000);
    assert_eq!(pin_from_source_date_epoch(" 0 "), 0);
    assert_eq!(pin_from_source_date_epoch("not-a-number"), 0);
    assert_eq!(pin_from_source_date_epoch(""), 0);
    assert_eq!(pin_from_source_date_epoch("-5"), 0);
    assert_eq!(
        pin_from_source_date_epoch("18446744073709551615"),
        MAX_RFC3339_EPOCH
    );
    assert_eq!(
        pin_from_source_date_epoch("999999999999999999999999"),
        MAX_RFC3339_EPOCH
    );
}

#[test]
fn max_rfc3339_epoch_round_trips_through_own_parser() {
    let rendered = rfc3339_utc(MAX_RFC3339_EPOCH);
    assert_eq!(rendered, "9999-12-31T23:59:59Z");
    assert_eq!(parse_rfc3339_utc(&rendered), Some(MAX_RFC3339_EPOCH));
}

#[test]
fn rfc3339_utc_formats_known_epochs() {
    assert_eq!(rfc3339_utc(0), "1970-01-01T00:00:00Z");
    assert_eq!(rfc3339_utc(1_709_164_800), "2024-02-29T00:00:00Z");
    assert_eq!(rfc3339_utc(1_767_225_599), "2025-12-31T23:59:59Z");
    assert_eq!(rfc3339_utc(1_767_225_600), "2026-01-01T00:00:00Z");
    assert_eq!(rfc3339_utc(4_102_444_800), "2100-01-01T00:00:00Z");
}

#[test]
fn rfc3339_utc_roundtrips_through_parser() {
    for epoch in [
        0,
        1,
        86_399,
        86_400,
        951_782_400,
        1_709_164_800,
        1_740_000_000,
        1_767_225_599,
        2_147_483_648,
        4_102_444_800,
    ] {
        let formatted = rfc3339_utc(epoch);
        assert_eq!(
            parse_rfc3339_utc(&formatted),
            Some(epoch),
            "round-trip failed for {epoch} ({formatted})"
        );
    }
}

#[test]
fn parse_rfc3339_utc_rejects_malformed_input() {
    for bad in [
        "",
        "1740000000",
        "2026-06-10",
        "2026-06-10T14:42:17",
        "2026-06-10T14:42:17+02:00",
        "2026-13-01T00:00:00Z",
        "2026-06-10T24:00:00Z",
        "1969-12-31T23:59:59Z",
        "not a timestamp at allZ",
    ] {
        assert_eq!(parse_rfc3339_utc(bad), None, "must reject {bad:?}");
    }
}

#[test]
fn legacy_capture_timestamp_parses_to_epoch() {
    assert_eq!(parse_rfc3339_utc("2025-02-19T21:20:00Z"), Some(1_740_000_000));
}

#[test]
fn pin_trims_unicode_whitespace_and_accepts_plus_sign() {
    assert_eq!(pin_from_source_date_epoch("\u{a0}+42\n"), 42);
}

#[test]
fn only_emitted_shapes_parse() {
    for bad in [
        "2026-02-30T00:00:00Z",
        "2026-04-31T00:00:00Z",
        "2026-13-01T00:00:00Z",
        "2026-06-10T24:00:00Z",
        "1969-12-31T23:59:59Z",
        "2026-06-10T14:42:17+02:00",
        "2026-+6-10T14:42:17Z",
        "+026-06-10T14:42:17Z",
    ] {
        assert_eq!(parse_rfc3339_utc(bad), None, "must reject {bad:?}");
    }
    assert_eq!(parse_rfc3339_utc("2024-02-29T00:00:00Z"), Some(1_709_164_800));
    for epoch in [0u64, 951_782_400, 1_709_164_800, 4_107_542_400, MAX_RFC3339_EPOCH] {
        assert_eq!(parse_rfc3339_utc(&rfc3339_utc(epoch)), Some(epoch));
    }
}
