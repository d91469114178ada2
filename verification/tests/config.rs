use hidamari::context::{
    Config, ConfigDyn, ConfigDynInput, split_url_with_name, concat_url_with_name, make_uniq_list,
    check_url, check_urls, UrlParseError, make_config_dyn_output, port_to_set, rewrite_hidamari_url,
    is_testsound_name, pick_title, testsound_url, TestSound, sort_testsounds, make_random_token,
};

fn config(contents: &str, self_url: &str) -> Config {
    Config {
        config_dyn: String::new(),
        bind_addr: String::from("0.0.0.0:8080"),
        mpd_addr: String::from("127.0.0.1:6600"),
        mpd_httpd_url: String::new(),
        self_url_for_mpd: String::from(self_url),
        mpd_protolog: false,
        mpd_fifo: String::new(),
        mpd_fifo_fftmode: 0,
        contents_dir: String::from(contents),
        albumart_upnp: false,
        albumart_localdir: String::new(),
    }
}

fn s(x: &str) -> String {
    String::from(x)
}

#[test]
fn names_of_urls() {
    assert_eq!(split_url_with_name("  [My Radio]  http://x/stream "), (s("http://x/stream"), s("My Radio")));
    assert_eq!(split_url_with_name("http://x/stream"), (s("http://x/stream"), s("")));
    assert_eq!(split_url_with_name("[] http://x"), (s("[] http://x"), s("")));
    assert_eq!(split_url_with_name("[ a ]b"), (s("b"), s("a")));
    assert_eq!(concat_url_with_name(" http://x ", " R "), "[R] http://x");
    assert_eq!(concat_url_with_name(" http://x ", ""), "http://x");
    let (u, n) = split_url_with_name("[R] http://x");
    assert_eq!(concat_url_with_name(&u, &n), "[R] http://x");
}

#[test]
fn written_name_reads_back() {
    let w = concat_url_with_name("  http://radio/a ", "\tMy  Radio ");
    assert_eq!(split_url_with_name(&w), (s("http://radio/a"), s("My  Radio")));
}

#[test]
fn uniq_lists() {
    let l = vec![s(" a "), s(""), s("b"), s("a"), s("  "), s("c"), s("b ")];
    let u = make_uniq_list(&l);
    assert_eq!(u, vec![s("a"), s("b"), s("c")]);
    assert_eq!(make_uniq_list(&u), u);
}

#[test]
fn url_checks() {
    assert_eq!(check_url("http://example.com/a"), Ok(()));
    assert_eq!(check_url("asource://hw:0"), Ok(()));
    assert_eq!(check_url("mpdsink://1"), Ok(()));
    assert_eq!(check_url("not a url"), Err(UrlParseError::RelativeUrlWithoutBase));
    assert_eq!(check_url("http://[::1"), Err(UrlParseError::InvalidIpv6Address));
    assert_eq!(UrlParseError::EmptyHost.name(), "EmptyHost");
    assert!(check_urls(&vec![s("  "), s("[R] http://x")]).is_none());
    let e = check_urls(&vec![s("http://ok"), s("[bad] nope")]).unwrap();
    assert_eq!(e.err_msg, "URL ParseError RelativeUrlWithoutBase [nope]");
}

#[test]
fn settings_update() {
    let mut cd = ConfigDyn::new();
    assert_eq!(cd.theme, "_default");
    assert_eq!(cd.spec_delay, 50);
    let err = cd.update(ConfigDynInput {
        theme: Some(s("dark")),
        spec_delay: None,
        url_list: Some(vec![s("bad url")]),
        aux_in: None,
    });
    assert_eq!(err.unwrap().err_msg, "URL ParseError RelativeUrlWithoutBase [bad url]");
    assert_eq!(cd.theme, "_default");
    let err = cd.update(ConfigDynInput {
        theme: Some(s("dark")),
        spec_delay: Some(80),
        url_list: Some(vec![s(" [A]  http://a "), s("http://b"), s("[A] http://a")]),
        aux_in: Some(vec![s("asource://hw:1"), s("asource://hw:1")]),
    });
    assert!(err.is_none());
    assert_eq!(cd.theme, "dark");
    assert_eq!(cd.spec_delay, 80);
    assert_eq!(cd.url_list, vec![s("[A] http://a"), s("http://b")]);
    assert_eq!(cd.aux_in, vec![s("asource://hw:1")]);
    assert_eq!(cd.aux_in(), vec![s("asource://hw:1")]);
}

#[test]
fn appending_urls() {
    let mut cd = ConfigDyn::new();
    cd.append_url(" http://x ");
    cd.append_url("http://x");
    cd.append_url("http://y");
    assert_eq!(cd.url_list, vec![s("http://x"), s("http://y")]);
}

#[test]
fn paths_and_themes() {
    let c = config("", "");
    let mut cd = ConfigDyn::new();
    assert_eq!(c.get_contents_path(), vec![s("_contents")]);
    assert_eq!(c.get_theme_path(&cd), vec![s("_contents"), s("theme"), s("_default")]);
    cd.theme = String::new();
    assert_eq!(c.get_theme_path(&cd), vec![s("_contents"), s("theme")]);
    let c = config("/srv/h", "");
    assert_eq!(c.get_common_path(), vec![s("/srv/h"), s("theme"), s("_common")]);
    assert_eq!(c.get_tsound_path(), vec![s("/srv/h"), s("tsource")]);
    let out = make_config_dyn_output(&cd, &vec![(s("dark"), true), (s(".git"), true), (s("_x"), true), (s("light"), false)]);
    assert_eq!(out.themes, vec![s("_default"), s("dark")]);
    assert_eq!(out.spec_delay, 50);
}

#[test]
fn self_url() {
    assert_eq!(port_to_set(None, Some(80), 8080), Some(8080));
    assert_eq!(port_to_set(None, Some(8080), 8080), None);
    assert_eq!(port_to_set(Some(9000), Some(9000), 8080), None);
    assert_eq!(port_to_set(None, None, 8080), Some(8080));
    let c = config("", "");
    assert_eq!(c.self_url_for_mpd(8080), Some(s("http://127.0.0.1:8080/")));
    let c = config("", "http://host:9000/x?y#z");
    assert_eq!(c.self_url_for_mpd(8080), Some(s("http://host:9000/")));
    let c = config("", "nope");
    assert_eq!(c.self_url_for_mpd(8080), None);
    let c = config("", "http://host");
    assert_eq!(c.update_hidamari_url("tsource://a.mp3", 80), "http://host/tsource/a.mp3");
    assert_eq!(rewrite_hidamari_url(&Some(s("http://h:1")), "asource://hw:0"), "http://h:1asource/hw:0");
    assert_eq!(rewrite_hidamari_url(&Some(s("http://h:1")), "http://other"), "http://other");
    assert_eq!(rewrite_hidamari_url(&None, "asource://hw:0"), "asource://hw:0");
}

#[test]
fn self_url_text() {
    assert_eq!(config("", "").self_url_for_mpd(80), Some(s("http://127.0.0.1/")));
    assert_eq!(config("", "https://h/p/q?x=1#f").self_url_for_mpd(8080), Some(s("https://h:8080/")));
    assert_eq!(config("", "http://h:80/a").self_url_for_mpd(80), Some(s("http://h/")));
    assert_eq!(config("", "ftp://h:21/a#b").self_url_for_mpd(8080), Some(s("ftp://h:8080/")));
    let c = config("", "http://h:1/x");
    assert_eq!(c.update_hidamari_url("asource://hw:0", 80), "http://h:1/asource/hw:0");
    assert_eq!(c.update_hidamari_url("http://other/x", 80), "http://other/x");
    assert_eq!(config("", "nope").update_hidamari_url("asource://hw:0", 80), "asource://hw:0");
}

#[test]
fn test_sound_names() {
    assert!(is_testsound_name("test-44100-1-16-10s-cord_a.mp3"));
    assert!(is_testsound_name("test-44100-2-16-5s-x_mp3"));
    assert!(!is_testsound_name("test-44100-12-16-10s-a.mp3"));
    assert!(!is_testsound_name("test-44100-1-16-10s-.mp3"));
    assert!(!is_testsound_name("test-4410a-1-16-10s-a.mp3"));
    assert!(!is_testsound_name("song.mp3"));
    assert!(!is_testsound_name("test-1-1-1-1s-a\n.mp3"));
}

#[test]
fn test_sound_titles() {
    assert_eq!(pick_title(&vec![Some(s(" A \u{0}")), None], &Some(s("T"))), "A");
    assert_eq!(pick_title(&vec![Some(s("first")), Some(s("last"))], &None), "last");
    assert_eq!(pick_title(&vec![None], &Some(s(" tag "))), " tag ");
    assert_eq!(pick_title(&vec![], &None), "");
    assert_eq!(testsound_url(&s("http://h:8080"), &s("t.mp3")), "http://h:8080tsource/t.mp3");
    let mut l = vec![
        TestSound { url: s("http://h/tsource/b.mp3"), title: s("B") },
        TestSound { url: s("http://h/tsource/a.mp3"), title: s("A") },
    ];
    sort_testsounds(&mut l);
    assert_eq!(l[0].title, "A");
    assert_eq!(l[1].title, "B");
}

#[test]
fn reply_tokens() {
    let mut rng = <rand::rngs::StdRng as rand::SeedableRng>::from_rng(rand::thread_rng()).unwrap();
    let t = make_random_token(&mut rng);
    assert_eq!(t.chars().count(), 16);
    let mut v: Vec<char> = t.chars().collect();
    v.sort();
    assert_eq!(v.into_iter().collect::<String>(), "0123456789abcdef");
}

#[test]
fn test_sound_names_with_other_digits() {
    assert!(is_testsound_name("test-\u{664}\u{664}\u{661}\u{660}\u{660}-\u{661}-\u{661}\u{666}-\u{661}\u{660}s-x.mp3"));
    assert!(is_testsound_name("test-\u{ff14}8000-2-16-5s-y.mp3"));
    assert!(!is_testsound_name("test-44100-\u{b2}-16-5s-y.mp3"));
}
