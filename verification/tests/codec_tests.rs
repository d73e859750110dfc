use drive_fuse::codec::{parse, render, storage_of_block, ConfigError, Storage};
use drive_fuse::enums::StorageType;
use drive_fuse::token::{Expiry, TokenError, TokenStruct};

const WORK_TOKEN: &str =
    "{\"access_token\":\"x\",\"token_type\":\"Bearer\",\"refresh_token\":\"y\",\"expiry\":\"2030-01-01T00:00:00Z\"}";

fn lines(text: &[&str]) -> Vec<String> {
    text.iter().map(|s| s.to_string()).collect()
}

fn work_block() -> Vec<String> {
    lines(&["[Work]", "type = drive", "scope = drive", &format!("token = {}", WORK_TOKEN), ""])
}

#[test]
fn parse_reads_the_example_block() {
    let storages = parse(&work_block()).unwrap();
    assert_eq!(storages.len(), 1);
    let work = &storages[0];
    assert_eq!(work.name, "Work");
    assert_eq!(work.drive_type, "drive");
    assert_eq!(work.scope, "drive");
    assert_eq!(work.provider_type(), Some(StorageType::GoogleDrive));
    assert_eq!(work.token.access_token(), "x");
    assert_eq!(work.token.token_type(), "Bearer");
    assert_eq!(work.token.refresh_token(), "y");
    assert_eq!(work.token.raw(), WORK_TOKEN);
    assert_eq!(
        work.token.expiry(),
        Expiry { timestamp: 1_893_456_000, nanos: 0, offset_seconds: 0 }
    );
}

#[test]
fn parse_of_nothing_is_empty() {
    assert_eq!(parse(&Vec::new()).unwrap().len(), 0);
    assert_eq!(parse(&lines(&["", "", ""])).unwrap().len(), 0);
}

#[test]
fn parse_reads_blocks_in_order() {
    let mut text = work_block();
    text.extend(lines(&[
        "[Photos]",
        "type = googlephotos",
        &format!("token = {}", WORK_TOKEN),
        "",
    ]));
    let storages = parse(&text).unwrap();
    assert_eq!(storages.len(), 2);
    assert_eq!(storages[0].name, "Work");
    assert_eq!(storages[1].name, "Photos");
    assert_eq!(storages[1].scope, "");
    assert_eq!(storages[1].provider_type(), Some(StorageType::GooglePhotos));
}

#[test]
fn parse_takes_the_last_block_without_a_blank_line() {
    let text = lines(&["[Work]", "type = drive", &format!("token = {}", WORK_TOKEN)]);
    let storages = parse(&text).unwrap();
    assert_eq!(storages.len(), 1);
    assert_eq!(storages[0].name, "Work");
}

#[test]
fn parse_lets_a_header_end_the_block_before_it() {
    let text = lines(&[
        "[A]",
        &format!("token = {}", WORK_TOKEN),
        "[B]",
        "type = dropbox",
        &format!("token = {}", WORK_TOKEN),
    ]);
    let storages = parse(&text).unwrap();
    assert_eq!(storages.len(), 2);
    assert_eq!(storages[0].name, "A");
    assert_eq!(storages[0].drive_type, "");
    assert_eq!(storages[1].name, "B");
    assert_eq!(storages[1].drive_type, "dropbox");
}

#[test]
fn parse_passes_over_unknown_keys_and_comments() {
    let text = lines(&[
        "# written by hand",
        "[Work]",
        "type = drive",
        "team_drive = 0AB",
        "; a comment",
        &format!("token = {}", WORK_TOKEN),
        "",
    ]);
    let storages = parse(&text).unwrap();
    assert_eq!(storages.len(), 1);
    assert_eq!(storages[0].drive_type, "drive");
}

#[test]
fn parse_removes_the_spaces_of_type_and_scope() {
    let text = lines(&[
        "[Work]",
        "type=  one drive ",
        "  scope   =a b  c",
        &format!("token   =    {}   ", WORK_TOKEN),
        "",
    ]);
    let storages = parse(&text).unwrap();
    assert_eq!(storages[0].drive_type, "onedrive");
    assert_eq!(storages[0].scope, "abc");
    assert_eq!(storages[0].token.raw(), WORK_TOKEN);
}

#[test]
fn parse_lets_the_last_occurrence_of_a_key_count() {
    let other =
        "{\"access_token\":\"second\",\"token_type\":\"Bearer\",\"expiry\":\"2031-01-01T00:00:00Z\"}";
    let text = lines(&[
        "[Work]",
        "type = drive",
        &format!("token = {}", WORK_TOKEN),
        "type = dropbox",
        &format!("token = {}", other),
        "",
    ]);
    let storages = parse(&text).unwrap();
    assert_eq!(storages[0].drive_type, "dropbox");
    assert_eq!(storages[0].token.access_token(), "second");
    assert_eq!(storages[0].token.raw(), other);
}

#[test]
fn parse_fails_on_a_bad_token_that_a_valid_one_follows() {
    let text = lines(&[
        "[Work]",
        "type = drive",
        "token = not json",
        &format!("token = {}", WORK_TOKEN),
        "",
    ]);
    assert_eq!(parse(&text).unwrap_err(), ConfigError::InvalidToken { line: 2 });
    let text = lines(&[
        "[Work]",
        "token = {\"access_token\":\"x\",\"expiry\":\"tomorrow\"}",
        "type = drive",
        &format!("token = {}", WORK_TOKEN),
        "",
    ]);
    assert_eq!(parse(&text).unwrap_err(), ConfigError::InvalidExpiry { line: 1 });
}

#[test]
fn parse_names_the_first_token_at_fault() {
    let text = lines(&[
        "[Work]",
        &format!("token = {}", WORK_TOKEN),
        "token = {\"access_token\":\"x\"}",
        "token = {oops",
        "",
    ]);
    assert_eq!(parse(&text).unwrap_err(), ConfigError::InvalidExpiry { line: 2 });
}

#[test]
fn parse_does_not_mind_the_spacing_around_equals() {
    let loose = lines(&[
        "[Work]",
        "type = drive",
        "scope = drive",
        &format!("token = {}", WORK_TOKEN),
        "",
    ]);
    let tight = lines(&[
        "[Work]",
        "type=drive",
        "scope=drive",
        &format!("token={}", WORK_TOKEN),
        "",
    ]);
    let wide = lines(&[
        "[Work]",
        "  type   =    drive  ",
        " scope =drive",
        &format!("token  =   {}  ", WORK_TOKEN),
        "",
    ]);
    let expected = parse(&loose).unwrap();
    assert_eq!(parse(&tight).unwrap(), expected);
    assert_eq!(parse(&wide).unwrap(), expected);
}

#[test]
fn storage_of_block_reads_the_fields_around_a_given_token() {
    let token = TokenStruct::from_members(
        WORK_TOKEN.to_string(),
        Some("x".to_string()),
        Some("Bearer".to_string()),
        Some("y".to_string()),
        (1_893_456_000, 0, 0),
    );
    let read = parse(&work_block()).unwrap();
    assert_eq!(read[0].token, token);
    let storage = storage_of_block(&work_block(), 0, 4, token.duplicate()).unwrap();
    assert_eq!(storage, read[0]);
    assert_eq!(storage.name, "Work");
    assert_eq!(storage.drive_type, "drive");
    assert_eq!(storage.scope, "drive");
    // only the lines of the block count
    let storage = storage_of_block(&work_block(), 0, 2, token.duplicate()).unwrap();
    assert_eq!(storage.drive_type, "drive");
    assert_eq!(storage.scope, "");
    assert_eq!(storage_of_block(&work_block(), 1, 4, token.duplicate()), None);
    assert_eq!(storage_of_block(&work_block(), 0, 0, token.duplicate()), None);
    assert_eq!(storage_of_block(&work_block(), 0, 6, token.duplicate()), None);
    assert_eq!(storage_of_block(&work_block(), 9, 10, token), None);
}

#[test]
fn from_members_defaults_missing_members_to_empty() {
    let token = TokenStruct::from_members("{}".to_string(), None, None, None, (5, 6, -7));
    assert_eq!(token.raw(), "{}");
    assert_eq!(token.access_token(), "");
    assert_eq!(token.token_type(), "");
    assert_eq!(token.refresh_token(), "");
    assert_eq!(token.expiry(), Expiry { timestamp: 5, nanos: 6, offset_seconds: -7 });
}

#[test]
fn parse_keeps_equals_signs_inside_the_token() {
    let token =
        "{\"access_token\":\"ab==\",\"token_type\":\"Bearer\",\"refresh_token\":\"1//c=d\",\"expiry\":\"2030-01-01T00:00:00Z\"}";
    let text = lines(&["[Work]", "type = drive", &format!("token = {}", token), ""]);
    let storages = parse(&text).unwrap();
    assert_eq!(storages[0].token.access_token(), "ab==");
    assert_eq!(storages[0].token.refresh_token(), "1//c=d");
}

#[test]
fn parse_fails_on_a_token_that_is_not_json() {
    let mut text = work_block();
    text.extend(lines(&["[Bad]", "type = drive", "token = {not json", ""]));
    assert_eq!(parse(&text).unwrap_err(), ConfigError::InvalidToken { line: 7 });
}

#[test]
fn parse_fails_on_an_expiry_that_is_not_rfc3339() {
    let text = lines(&[
        "[Bad]",
        "type = drive",
        "token = {\"access_token\":\"x\",\"expiry\":\"next tuesday\"}",
        "",
    ]);
    assert_eq!(parse(&text).unwrap_err(), ConfigError::InvalidExpiry { line: 2 });
}

#[test]
fn parse_fails_on_a_token_without_expiry() {
    let text = lines(&["[Bad]", "token = {\"access_token\":\"x\"}", ""]);
    assert_eq!(parse(&text).unwrap_err(), ConfigError::InvalidExpiry { line: 1 });
    let text = lines(&["[Bad]", "token = {\"expiry\":5}", ""]);
    assert_eq!(parse(&text).unwrap_err(), ConfigError::InvalidExpiry { line: 1 });
}

#[test]
fn parse_fails_on_a_block_without_token() {
    let mut text = work_block();
    text.extend(lines(&["[Half]", "type = drive", "scope = drive", ""]));
    assert_eq!(parse(&text).unwrap_err(), ConfigError::MissingToken { line: 5 });
}

#[test]
fn parse_fails_on_a_header_that_is_not_closed() {
    assert_eq!(
        parse(&lines(&["[Work", "type = drive"])).unwrap_err(),
        ConfigError::MalformedBlock { line: 0 }
    );
    assert_eq!(parse(&lines(&["[]"])).unwrap_err(), ConfigError::MalformedBlock { line: 0 });
    assert_eq!(parse(&lines(&["["])).unwrap_err(), ConfigError::MalformedBlock { line: 0 });
}

#[test]
fn parse_fails_on_a_field_outside_a_block() {
    let text = lines(&["type = drive", "[Work]", &format!("token = {}", WORK_TOKEN)]);
    assert_eq!(parse(&text).unwrap_err(), ConfigError::MalformedBlock { line: 0 });
    let mut text = work_block();
    text.push(format!("token = {}", WORK_TOKEN));
    assert_eq!(parse(&text).unwrap_err(), ConfigError::MalformedBlock { line: 5 });
}

#[test]
fn render_writes_the_block_shape() {
    let storages = parse(&work_block()).unwrap();
    assert_eq!(render(&storages), work_block());
    assert_eq!(render(&Vec::new()), Vec::<String>::new());
}

#[test]
fn render_then_parse_gives_the_same_storages() {
    let text = lines(&[
        "[One]",
        "scope=drive.readonly",
        "type   =   drive",
        "client_id = 123",
        &format!("token={}", WORK_TOKEN),
        "",
        "",
        "[Two]",
        "type = dropbox",
        "token = { \"access_token\" : \"q\", \"token_type\":\"bearer\", \"expiry\":\"2024-02-29T12:30:15.5+02:00\" }",
    ]);
    let first: Vec<Storage> = parse(&text).unwrap();
    let written = render(&first);
    assert_eq!(written.len(), 10);
    assert_eq!(written[0], "[One]");
    assert_eq!(written[1], "type = drive");
    assert_eq!(written[2], "scope = drive.readonly");
    assert_eq!(written[4], "");
    assert_eq!(written[7], "scope = ");
    let second = parse(&written).unwrap();
    assert_eq!(first, second);
    assert_eq!(render(&second), written);
}

#[test]
fn token_parse_reads_the_members() {
    let token = TokenStruct::parse(
        "{\"access_token\":\"a b\",\"token_type\":\"Bearer\",\"refresh_token\":\"r\\\"q\",\"expiry\":\"1996-12-19T16:39:57-08:00\",\"extra\":[1,2]}",
    )
    .unwrap();
    assert_eq!(token.access_token(), "a b");
    assert_eq!(token.token_type(), "Bearer");
    assert_eq!(token.refresh_token(), "r\"q");
    assert_eq!(
        token.expiry(),
        Expiry { timestamp: 851_042_397, nanos: 0, offset_seconds: -28_800 }
    );
    assert_eq!(token.duplicate(), token);
}

#[test]
fn token_parse_reads_fractions_of_a_second() {
    let token = TokenStruct::parse("{\"expiry\":\"2024-02-29T12:30:15.5+02:00\"}").unwrap();
    assert_eq!(
        token.expiry(),
        Expiry { timestamp: 1_709_202_615, nanos: 500_000_000, offset_seconds: 7_200 }
    );
}

#[test]
fn token_parse_defaults_missing_members_to_empty() {
    let token =
        TokenStruct::parse("{\"token_type\":7,\"expiry\":\"2030-01-01T00:00:00Z\"}").unwrap();
    assert_eq!(token.access_token(), "");
    assert_eq!(token.token_type(), "");
    assert_eq!(token.refresh_token(), "");
}

#[test]
fn token_parse_names_each_fault() {
    assert_eq!(TokenStruct::parse("").unwrap_err(), TokenError::InvalidJson);
    assert_eq!(TokenStruct::parse("{\"expiry\":").unwrap_err(), TokenError::InvalidJson);
    assert_eq!(TokenStruct::parse("[1, 2]").unwrap_err(), TokenError::InvalidExpiry);
    assert_eq!(
        TokenStruct::parse("{\"expiry\":\"2030-13-01T00:00:00Z\"}").unwrap_err(),
        TokenError::InvalidExpiry
    );
    assert_eq!(
        TokenStruct::parse("{\"expiry\":\"2030-01-01\"}").unwrap_err(),
        TokenError::InvalidExpiry
    );
}
