use discord_fix::listing::{bat_entry_html, escape_name, is_bat_file, unescape_name};
use discord_fix::{err_to_str, Error};

#[test]
fn bat_extension_in_any_case() {
    assert!(is_bat_file("general.bat"));
    assert!(is_bat_file("ALT.BaT"));
    assert!(is_bat_file("a.b.bat"));
    assert!(!is_bat_file(".bat"));
    assert!(!is_bat_file("bat"));
    assert!(!is_bat_file("x.bat.txt"));
    assert!(!is_bat_file("x.bats"));
    assert!(!is_bat_file(""));
}

#[test]
fn names_are_escaped_and_unescaped() {
    assert_eq!(escape_name("a\"<b>"), "a&quot;&lt;b&gt;");
    assert_eq!(unescape_name("a&quot;&lt;b&gt;"), "a\"<b>");
    assert_eq!(escape_name("plain"), "plain");
}

#[test]
fn entry_is_checked_for_active_name() {
    let on = bat_entry_html("7", "general.bat", "general.bat");
    assert!(on.contains("id=\"bat-name-7\""));
    assert!(on.contains("value=\"general.bat\" type=\"radio\" checked>"));
    assert!(on.contains("<label for=\"bat-name-7\">general.bat</label>"));
    let off = bat_entry_html("8", "other.bat", "general.bat");
    assert!(off.contains("type=\"radio\" >"));
}

#[test]
fn list_error_message() {
    assert_eq!(err_to_str("denied"), "Failed to read .bat files list: denied");
    assert_eq!(
        Error::FailedReadBatsList("denied".to_string()).message(),
        "Failed to read .bat files list: denied"
    );
    assert_eq!(
        Error::FailedRunWinwsProcess.message(),
        "Failed to run winws.exe process, check the permissions"
    );
    assert_eq!(Error::FailedParseBatFile("g".to_string()).message(), "Failed to read 'g.bat' file");
    assert_eq!(Error::String("boom".to_string()).message(), "boom");
}
