use lingxi::auth::{acceptable, after, answers, begin, username, AuthCall, AuthNext};
use lingxi::backend::{
    autostart_script, choose_backend, choose_crtc, choose_mode, plan_output, refresh_millihertz,
    spawn_autostart_pub, Backend, Connector, ScreenMode,
};
use lingxi::config::{
    default_binds, dirs_config_path, key_name_to_keysym, AnimationConfig, DecorationConfig,
    GeneralConfig, KeyBind, LayoutConfig, LingxiConfig, ParsedKeyBind,
};
use lingxi::text::{is_white, parse_usize, split, split_words};

fn bind(keys: &str) -> Option<ParsedKeyBind> {
    ParsedKeyBind::parse(keys)
}

fn mode(width: u16, preferred: bool) -> ScreenMode {
    ScreenMode { width, height: 100, refresh_hz: 60, preferred }
}

fn strings(list: &[&str]) -> Vec<String> {
    list.iter().map(|s| s.to_string()).collect()
}

#[test]
fn key_bindings_are_read_in_any_case() {
    let q = bind("Super+Shift+Q").unwrap();
    assert_eq!(
        q,
        ParsedKeyBind { logo: true, shift: true, ctrl: false, alt: false, keysym: 0x71 }
    );
    assert_eq!(bind("shift+SUPER+q"), Some(q));
    assert_eq!(bind("Super+NoSuchKey"), None);
    assert_eq!(bind("Super+Shift"), None);
    assert_eq!(bind(""), None);
}

#[test]
fn keys_have_names() {
    assert_eq!(key_name_to_keysym("a"), Some(0x61));
    assert_eq!(key_name_to_keysym("9"), Some(0x39));
    assert_eq!(key_name_to_keysym("return"), Some(0xff0d));
    assert_eq!(key_name_to_keysym("f1"), Some(0xffbe));
    assert_eq!(key_name_to_keysym("left"), Some(0xff51));
    assert_eq!(key_name_to_keysym("nothing"), None);
}

#[test]
fn order_case_and_repetition_do_not_matter_in_a_binding() {
    let read = |keys: &str| {
        let b = ParsedKeyBind::parse(keys).unwrap();
        (b.logo, b.shift, b.ctrl, b.alt, b.keysym)
    };
    let plain = read("Super+Shift+Return");
    assert_eq!(plain, (true, true, false, false, 0xff0d));
    assert_eq!(read("return+SHIFT+super"), plain);
    assert_eq!(read("Shift+Super+shift+RETURN+Super"), plain);
    assert_eq!(read("Super+Shift+Enter"), plain);
    assert!(ParsedKeyBind::parse("Super+Shift").is_none());
    assert!(ParsedKeyBind::parse("").is_none());
    // Of several keys the last one counts.
    assert_eq!(read("a+b").4, 0x62);
}

#[test]
fn no_two_keys_share_a_keysym() {
    let names = [
        "return", "escape", "tab", "backspace", "space", "left", "up", "right", "down", "delete",
        "home", "end", "f1", "f2", "f3", "f4", "f5", "f6", "f7", "f8", "f9", "f10", "f11", "f12",
        "0", "1", "9", "a", "m", "z",
    ];
    for (i, a) in names.iter().enumerate() {
        assert_eq!(key_name_to_keysym(a), key_name_to_keysym(&a.to_uppercase()));
        for b in &names[i + 1..] {
            assert_ne!(key_name_to_keysym(a), key_name_to_keysym(b));
        }
    }
    assert_eq!(key_name_to_keysym("esc"), key_name_to_keysym("Escape"));
    // No character in lower case is one of the letters A to Z.
    for n in 0x80..=0x10ffff {
        if let Some(c) = char::from_u32(n) {
            assert!(!c.to_lowercase().any(|l| l.is_ascii_uppercase()));
        }
    }
    // The Kelvin sign is a K.
    assert_eq!(key_name_to_keysym("\u{212a}"), Some(0x6b));
}

#[test]
fn white_space_is_what_the_standard_library_takes_for_it() {
    for n in 0..=0x10ffff {
        if let Some(c) = char::from_u32(n) {
            assert_eq!(is_white(c), c.is_whitespace());
        }
    }
}

#[test]
fn all_default_bindings_can_be_read() {
    let config = LingxiConfig::default();
    assert_eq!(config.binds.len(), default_binds().len());
    assert_eq!(config.parsed_binds().len(), config.binds.len());
    assert_eq!(config.binds.len(), 28);
}

#[test]
fn settings_by_default() {
    let g = GeneralConfig::default();
    assert_eq!((g.border_size, g.gaps_inner, g.gaps_outer, g.cursor_size), (2, 5, 10, 24));
    assert_eq!(f32::from_bits(g.active_border_color.green.bits), 0.9);
    let a = AnimationConfig::default();
    assert!(a.enabled);
    let l = LayoutConfig::default();
    assert_eq!(f64::from_bits(l.split_ratio.bits), 0.5);
    let d = DecorationConfig::default();
    assert_eq!((d.rounding, d.shadow_range), (10, 15));
    assert_eq!(f32::from_bits(d.shadow_offset_y.bits), 4.0);
}

#[test]
fn settings_without_bindings_get_the_default_ones() {
    assert_eq!(LingxiConfig::load(None).binds.len(), 28);
    let mut empty = LingxiConfig::default();
    empty.binds = vec![];
    empty.general.gaps_inner = 99;
    let loaded = LingxiConfig::load(Some(empty));
    assert_eq!(loaded.binds.len(), 28);
    assert_eq!(loaded.general.gaps_inner, 99);
    let mut own = LingxiConfig::default();
    own.binds = vec![KeyBind {
        keys: "Super+X".to_string(),
        action: "quit".to_string(),
        arg: None,
    }];
    assert_eq!(LingxiConfig::load(Some(own)).binds.len(), 1);
}

#[test]
fn unreadable_bindings_are_skipped() {
    let mut config = LingxiConfig::default();
    let keys = |keys: &str| KeyBind {
        keys: keys.to_string(),
        action: "exec".to_string(),
        arg: Some("foot".to_string()),
    };
    config.binds = vec![keys("Super+Nope"), keys("Alt+T")];
    let parsed = config.parsed_binds();
    assert_eq!(parsed.len(), 1);
    assert!(parsed[0].0.alt);
    assert_eq!(parsed[0].1, "exec");
    assert_eq!(parsed[0].2.as_deref(), Some("foot"));
}

#[test]
fn the_settings_file_lies_in_the_home_directory() {
    assert_eq!(
        dirs_config_path(Some("/home/me".to_string())),
        "/home/me/.config/lingxi/lingxi.toml"
    );
    assert_eq!(dirs_config_path(None), "/tmp/.config/lingxi/lingxi.toml");
}

#[test]
fn texts_are_split_and_read() {
    assert_eq!(split("a+b++c", '+'), strings(&["a", "b", "", "c"]));
    assert_eq!(split("", '+'), strings(&[""]));
    assert_eq!(split_words(" one\u{3000}two \n"), strings(&["one", "two"]));
    assert_eq!(parse_usize("042"), Some(42));
    assert_eq!(parse_usize("+7"), Some(7));
    assert_eq!(parse_usize("-7"), None);
    assert_eq!(parse_usize(""), None);
    assert_eq!(parse_usize("+"), None);
    assert_eq!(parse_usize("18446744073709551615"), Some(usize::MAX));
    assert_eq!(parse_usize("18446744073709551616"), None);
}

#[test]
fn the_user_has_a_name() {
    let s = |t: &str| Some(t.to_string());
    assert_eq!(username(s("me"), s("you")), "me");
    assert_eq!(username(None, s("you")), "you");
    assert_eq!(username(None, None), "root");
}

#[test]
fn a_password_with_a_null_is_refused_before_anything_is_asked() {
    assert_eq!(acceptable("secret"), Ok(()));
    assert_eq!(acceptable("sec\0ret"), Err("密码含非法字符".to_string()));
    assert_eq!(begin("secret"), AuthNext::Ask(AuthCall::Start));
    assert_eq!(
        begin("\0"),
        AuthNext::Finish { end_session: false, result: Err("密码含非法字符".to_string()) }
    );
}

#[test]
fn the_service_has_to_say_yes_three_times() {
    let fail = |end_session: bool, message: &str| AuthNext::Finish {
        end_session,
        result: Err(message.to_string()),
    };
    assert_eq!(after(AuthCall::Start, true, "SUCCESS"), AuthNext::Ask(AuthCall::Authenticate));
    assert_eq!(
        after(AuthCall::Start, false, "SYSTEM_ERR"),
        fail(false, "PAM 初始化失败: SYSTEM_ERR")
    );
    assert_eq!(after(AuthCall::Authenticate, true, "SUCCESS"), AuthNext::Ask(AuthCall::Account));
    assert_eq!(after(AuthCall::Authenticate, false, "AUTH_ERR"), fail(true, "密码错误"));
    assert_eq!(
        after(AuthCall::Account, true, "SUCCESS"),
        AuthNext::Finish { end_session: true, result: Ok(()) }
    );
    assert_eq!(
        after(AuthCall::Account, false, "ACCT_EXPIRED"),
        fail(true, "账户验证失败: ACCT_EXPIRED")
    );
}

#[test]
fn only_hidden_questions_are_answered() {
    assert_eq!(answers(&vec![1, 2, 3, 4, 1]), vec![true, false, false, false, true]);
    assert_eq!(answers(&vec![]), vec![]);
}

#[test]
fn the_backend_follows_the_arguments_and_the_session() {
    let pick = |args: &[&str], wayland: bool, x: bool| choose_backend(&strings(args), wayland, x);
    assert_eq!(pick(&["lingxi"], false, false), Backend::Drm);
    assert_eq!(pick(&["lingxi"], true, false), Backend::Winit);
    assert_eq!(pick(&["lingxi"], false, true), Backend::Winit);
    assert_eq!(pick(&["lingxi", "--winit"], false, false), Backend::Winit);
    assert_eq!(pick(&["lingxi", "--winit", "--drm"], true, true), Backend::Drm);
}

#[test]
fn the_preferred_mode_is_used() {
    assert_eq!(choose_mode(&vec![mode(1, false), mode(2, true), mode(3, true)]), Some(1));
    assert_eq!(choose_mode(&vec![mode(1, false), mode(2, false)]), Some(0));
    assert_eq!(choose_mode(&vec![]), None);
}

#[test]
fn connectors_are_used_if_they_can_be() {
    assert_eq!(choose_crtc(Some(9), &vec![1, 2]), Some(9));
    assert_eq!(choose_crtc(None, &vec![1, 2]), Some(1));
    assert_eq!(choose_crtc(None, &vec![]), None);
    let connector = |connected: bool, modes: Vec<ScreenMode>| Connector {
        connected,
        modes,
        current_crtc: None,
    };
    let modes = vec![mode(1, false), mode(2, true)];
    assert_eq!(plan_output(&connector(true, modes.clone()), &vec![5]), Some((1, 5)));
    assert_eq!(plan_output(&connector(false, modes.clone()), &vec![5]), None);
    assert_eq!(plan_output(&connector(true, vec![]), &vec![5]), None);
    assert_eq!(plan_output(&connector(true, modes), &vec![]), None);
}

#[test]
fn refresh_rates_are_in_millihertz() {
    assert_eq!(refresh_millihertz(mode(1, true)), 60_000);
    let fast = ScreenMode { refresh_hz: 4_000_000, ..mode(1, true) };
    assert_eq!(refresh_millihertz(fast), (4_000_000_000u32) as i32);
}

#[test]
fn the_start_script_is_run_if_it_is_there() {
    let script = autostart_script(Some("/home/me".to_string()));
    assert_eq!(script, "/home/me/.config/lingxi/autostart.sh");
    assert_eq!(autostart_script(None), "/root/.config/lingxi/autostart.sh");
    assert_eq!(spawn_autostart_pub(script.clone(), true), Some(script.clone()));
    assert_eq!(spawn_autostart_pub(script, false), None);
}
