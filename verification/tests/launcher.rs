use steam_placeholder::launcher::{
    decimal_text, invoke_steam_install, invoke_steam_run, invoke_steam_uninstall,
    invoke_steam_url, invoke_steam_url_game_cmd, invoke_steam_validate,
};

#[test]
fn decimal_text_writes_plain_decimal() {
    assert_eq!(decimal_text(0), "0");
    assert_eq!(decimal_text(7), "7");
    assert_eq!(decimal_text(9), "9");
    assert_eq!(decimal_text(10), "10");
    assert_eq!(decimal_text(101), "101");
    assert_eq!(decimal_text(823470), "823470");
    assert_eq!(decimal_text(1234567890), "1234567890");
    assert_eq!(decimal_text(usize::MAX), usize::MAX.to_string());
}

#[test]
fn steam_url_prefixes_the_scheme() {
    assert_eq!(invoke_steam_url("install/1"), "steam://install/1");
    assert_eq!(invoke_steam_url(""), "steam://");
}

#[test]
fn game_command_url_joins_command_and_id() {
    assert_eq!(invoke_steam_url_game_cmd("install", 1), "steam://install/1");
    assert_eq!(invoke_steam_url_game_cmd("rungameid", 42), "steam://rungameid/42");
}

#[test]
fn each_trigger_has_its_own_command() {
    assert_eq!(invoke_steam_install(823470), "steam://install/823470");
    assert_eq!(invoke_steam_uninstall(823470), "steam://uninstall/823470");
    assert_eq!(invoke_steam_validate(823470), "steam://validate/823470");
    assert_eq!(invoke_steam_run(823470), "steam://run/823470");
    assert_eq!(invoke_steam_run(0), "steam://run/0");
}
