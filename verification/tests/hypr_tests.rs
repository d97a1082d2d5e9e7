use std::path::PathBuf;
use cursor_pet::cursor::CursorSource;
use cursor_pet::hypr::{
    cursor_pos, first_found_socket, number_after, overlay_dispatch_commands, overlay_rule_commands,
    settings_rule_commands, socket_path, socket_paths,
};
use cursor_pet::text::format_i32;

#[test]
fn cursor_pos_reads_hyprland_reply() {
    assert_eq!(cursor_pos("1024, 768"), Some((1024, 768)));
    assert_eq!(cursor_pos("1024,768\n"), Some((1024, 768)));
    assert_eq!(cursor_pos("  -5 ,  +7  "), Some((-5, 7)));
    assert_eq!(cursor_pos("-2147483648, 2147483647"), Some((i32::MIN, i32::MAX)));
}

#[test]
fn cursor_pos_rejects_malformed_replies() {
    assert_eq!(cursor_pos(""), None);
    assert_eq!(cursor_pos("1024 768"), None);
    assert_eq!(cursor_pos("1,2,3"), None);
    assert_eq!(cursor_pos("x, 1"), None);
    assert_eq!(cursor_pos("1, "), None);
    assert_eq!(cursor_pos("2147483648, 0"), None);
    assert_eq!(cursor_pos("1.5, 2"), None);
}

#[test]
fn cursor_pos_reads_back_what_is_written() {
    for (x, y) in [(0, 0), (-1, 1), (1920, 1080), (i32::MIN, i32::MAX)] {
        let reply = format!("{}, {}", format_i32(x), format_i32(y));
        assert_eq!(cursor_pos(&reply), Some((x, y)));
    }
}

#[test]
fn number_after_takes_the_number_text() {
    let json = r#"[{"id":0,"width": 2560,"height":1440,"scale":1.25,"x":-10}]"#;
    assert_eq!(number_after(json, "\"width\":").as_deref(), Some("2560"));
    assert_eq!(number_after(json, "\"height\":").as_deref(), Some("1440"));
    assert_eq!(number_after(json, "\"scale\":").as_deref(), Some("1.25"));
    assert_eq!(number_after(json, "\"x\":").as_deref(), Some("-10"));
    assert_eq!(number_after(json, "\"missing\":"), None);
    assert_eq!(number_after("\"width\":\"big\"", "\"width\":").as_deref(), Some(""));
    assert_eq!(number_after("a:1 a:2", "a:").as_deref(), Some("1"));
    assert_eq!(number_after("12", "").as_deref(), Some("12"));
}

#[test]
fn overlay_rules_in_order() {
    let v = overlay_rule_commands(1920, 1080);
    let m = "match:title ^(cursorpet-overlay)$";
    let rules = [
        "float on", "pin on", "no_blur on", "no_dim on", "no_shadow on", "no_anim on",
        "no_focus on", "no_initial_focus on", "opacity 1.0 override 1.0 override 1.0",
        "rounding 0", "size 1920 1080", "move 0 0",
    ];
    assert_eq!(v.len(), rules.len());
    for (cmd, rule) in v.iter().zip(rules.iter()) {
        assert_eq!(cmd, &format!("keyword windowrule {rule}, {m}"));
    }
    assert_eq!(v[0], "keyword windowrule float on, match:title ^(cursorpet-overlay)$");
    assert_eq!(overlay_rule_commands(-1, 0)[10], "keyword windowrule size -1 0, match:title ^(cursorpet-overlay)$");
}

#[test]
fn settings_rules() {
    assert_eq!(
        settings_rule_commands(),
        vec![
            "keyword windowrule float on, match:title ^(Cursor Pet).*$".to_string(),
            "keyword windowrule center on, match:title ^(Cursor Pet).*$".to_string(),
            "keyword windowrule no_dim on, match:title ^(Cursor Pet).*$".to_string(),
        ]
    );
}

#[test]
fn overlay_dispatches() {
    assert_eq!(
        overlay_dispatch_commands(1600, 900),
        vec![
            "dispatch setfloating title:^(cursorpet-overlay)$".to_string(),
            "dispatch resizewindowpixel exact 1600 900,title:^(cursorpet-overlay)$".to_string(),
            "dispatch movewindowpixel exact 0 0,title:^(cursorpet-overlay)$".to_string(),
        ]
    );
}

#[test]
fn socket_candidates() {
    assert_eq!(
        socket_paths(Some("/run/user/42"), "abc_123"),
        vec!["/run/user/42/hypr/abc_123/.socket.sock".to_string(), "/tmp/hypr/abc_123/.socket.sock".to_string()]
    );
    assert_eq!(socket_paths(None, "s")[0], "/run/user/1000/hypr/s/.socket.sock");
}

#[test]
fn socket_path_needs_a_signature_and_an_existing_socket() {
    assert_eq!(socket_path(true, None, Some("/run/user/1000")), None);
    assert_eq!(socket_path(true, Some("no-such-instance-signature-x9"), Some("/no/such/dir")), None);
    assert_eq!(socket_path(false, Some("x"), Some("/")), None);
}

#[test]
fn cursor_source_detection() {
    let s = CursorSource::detect(Some(PathBuf::from("/tmp/hypr/x/.socket.sock")));
    assert_eq!(s.hypr_sock(), Some(&PathBuf::from("/tmp/hypr/x/.socket.sock")));
    assert!(matches!(CursorSource::detect(None), CursorSource::Native));
    assert_eq!(CursorSource::detect(None).hypr_sock(), None);
}

#[test]
fn cursor_from_each_source() {
    let hypr = CursorSource::detect(Some(PathBuf::from("/s")));
    assert_eq!(hypr.cursor(Some("10, 20"), Some((1, 2))), Some((10, 20)));
    assert_eq!(hypr.cursor(None, Some((1, 2))), None);
    assert_eq!(hypr.cursor(Some("junk"), None), None);
    let native = CursorSource::detect(None);
    assert_eq!(native.cursor(Some("10, 20"), Some((1, 2))), Some((1, 2)));
    assert_eq!(native.cursor(None, None), None);
}

#[test]
fn first_found_socket_takes_the_first_existing() {
    let c = vec!["/a".to_string(), "/b".to_string()];
    assert_eq!(first_found_socket(&c, &vec![true]), Some("/a".to_string()));
    assert_eq!(first_found_socket(&c, &vec![false, true]), Some("/b".to_string()));
    assert_eq!(first_found_socket(&c, &vec![true, true]), Some("/a".to_string()));
    assert_eq!(first_found_socket(&c, &vec![false, false]), None);
    assert_eq!(first_found_socket(&c, &vec![false]), None);
    assert_eq!(first_found_socket(&c, &vec![]), None);
}
