use quotis::timestamp::parse_ts;

#[test]
fn timestamps() {
    assert_eq!(parse_ts("1970-01-01T00:00:00Z"), Some(0));
    assert_eq!(parse_ts("2000-03-01T00:00:00.123Z"), Some(951_868_800));
    assert_eq!(parse_ts("2026-09-22T09:38:12.943648+00:00"), Some(1_790_069_892));
    assert_eq!(parse_ts("garbage"), None);
}

#[test]
fn next_day_is_one_day_later() {
    let feb29 = parse_ts("2024-02-29T12:00:00Z").unwrap();
    let mar1 = parse_ts("2024-03-01T12:00:00Z").unwrap();
    assert_eq!(mar1 - feb29, 86400);
    let feb28 = parse_ts("2023-02-28T12:00:00Z").unwrap();
    let mar1 = parse_ts("2023-03-01T12:00:00Z").unwrap();
    assert_eq!(mar1 - feb28, 86400);
    let feb28 = parse_ts("2100-02-28T00:00:00Z").unwrap();
    let mar1 = parse_ts("2100-03-01T00:00:00Z").unwrap();
    assert_eq!(mar1 - feb28, 86400);
    let feb29 = parse_ts("2000-02-29T00:00:00Z").unwrap();
    let mar1 = parse_ts("2000-03-01T00:00:00Z").unwrap();
    assert_eq!(mar1 - feb29, 86400);
}

#[test]
fn new_year_follows_new_years_eve() {
    let eve = parse_ts("2023-12-31T23:59:59Z").unwrap();
    let new_year = parse_ts("2024-01-01T00:00:00Z").unwrap();
    assert_eq!(new_year - eve, 1);
}

#[test]
fn before_the_epoch_is_negative() {
    assert_eq!(parse_ts("1969-12-31T23:59:59Z"), Some(-1));
    assert_eq!(parse_ts("0000-03-01T00:00:00Z"), Some(-62_162_035_200));
}

#[test]
fn fields_are_read_as_signed_integers() {
    assert_eq!(parse_ts("1970-01-01T00:00:+5Z"), Some(5));
    assert_eq!(parse_ts("1970-01-01T00:00:-5Z"), Some(-5));
    assert_eq!(parse_ts("1970-01-01T00:+1:00Z"), Some(60));
    assert_eq!(parse_ts("1970-01-01T00:00:+Z"), None);
    assert_eq!(parse_ts("1970-01-01T00:00: 5Z"), None);
}

#[test]
fn missing_fields_give_none() {
    assert_eq!(parse_ts(""), None);
    assert_eq!(parse_ts("2026-10-01"), None);
    assert_eq!(parse_ts("2026-10-01T00:00:0"), None);
    assert_eq!(parse_ts("2026-10-01T00:00:00"), Some(1_790_812_800));
}

#[test]
fn separators_are_not_checked() {
    assert_eq!(parse_ts("1970x01x01x00x00x00"), Some(0));
}
