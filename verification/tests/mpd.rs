use hidamari::mpdcom::{
    classify, LineKind, MpdResponse, ReadNext, quote_arg, decorate_status, StatusExtras, VolumeState,
    collect_song_ids, playlistid_command, merge_fields, plan_request, RequestPlan, MpdComRequestType,
    MpdComOk, MpdComErr, MpdComOkStatus, testsound_command, TestSoundRun, should_connect,
    should_poll_status, banner_version, is_mute_word, connection_lost,
};

fn kv(k: &str, v: &str) -> (String, String) {
    (String::from(k), String::from(v))
}

#[test]
fn line_kinds() {
    assert!(matches!(classify("OK\n"), LineKind::Done));
    match classify("volume: 50\n") {
        LineKind::Field(k, v) => {
            assert_eq!(k, "volume");
            assert_eq!(v, "50");
        }
        _ => panic!("expected a field"),
    }
    match classify("ACK [50@1] {play} No such song\n") {
        LineKind::Ack(e) => {
            assert_eq!(e.err_code, 50);
            assert_eq!(e.cmd_index, 1);
            assert_eq!(e.cur_cmd, "play");
            assert_eq!(e.msg_text, "No such song");
        }
        _ => panic!("expected an error"),
    }
    assert!(matches!(classify("binary: 10\n"), LineKind::Binary(10)));
    assert!(matches!(classify("binary: x\n"), LineKind::BadNumber));
    assert!(matches!(classify("no separator\n"), LineKind::Ignored));
}

#[test]
fn response_fields_then_ok() {
    let mut r = MpdResponse::new();
    assert!(matches!(r.feed_line("state: play\n"), ReadNext::Line));
    assert!(matches!(r.feed_line("song: 3\n"), ReadNext::Line));
    assert!(matches!(r.feed_line("OK\n"), ReadNext::Stop));
    match r.result() {
        Ok(o) => {
            assert_eq!(o.flds, vec![kv("state", "play"), kv("song", "3")]);
            assert!(o.bin.is_none());
        }
        Err(_) => panic!("expected success"),
    }
}

#[test]
fn response_error_and_binary() {
    let mut r = MpdResponse::new();
    assert!(matches!(r.feed_line("size: 4\n"), ReadNext::Line));
    assert!(matches!(r.feed_line("binary: 4\n"), ReadNext::Binary));
    assert!(matches!(r.feed_binary(Some(vec![1, 2, 3, 4])), ReadNext::Line));
    assert!(matches!(r.feed_line("OK\n"), ReadNext::Stop));
    let o = r.result().ok().unwrap();
    assert_eq!(o.bin, Some(vec![1, 2, 3, 4]));

    let mut r = MpdResponse::new();
    assert!(matches!(r.feed_line("ACK [2@0] {setvol} bad\n"), ReadNext::Stop));
    let e = r.result().err().unwrap();
    assert_eq!(e.err_code, 2);

    let mut r = MpdResponse::new();
    r.end_of_stream();
    assert_eq!(r.result().err().unwrap().err_code, -1);
}

#[test]
fn argument_quoting() {
    assert_eq!(quote_arg("abc"), "abc");
    assert_eq!(quote_arg("a b"), "\"a b\"");
    assert_eq!(quote_arg("a\"b"), "a\\\"b");
    assert_eq!(quote_arg("x\\ y"), "\"x\\\\ y\"");
}

fn extras() -> StatusExtras {
    StatusExtras {
        time: String::from("T"),
        product: String::from("hidamari"),
        version: String::from("0.1.0"),
        ws_status_intv: String::from("200ms"),
        ws_data_intv: String::from("200ms"),
        spec_enable: true,
    }
}

#[test]
fn status_decoration() {
    let mut f = vec![kv("volume", "30"), kv("state", "play")];
    let mut vol = VolumeState { volume: 0, mute: false };
    decorate_status(&mut f, &extras(), &mut vol);
    assert_eq!(f, vec![
        kv("state", "play"),
        kv("_x_time", "T"),
        kv("_x_product", "hidamari"),
        kv("_x_version", "0.1.0"),
        kv("_x_ws_status_intv", "200ms"),
        kv("_x_ws_data_intv", "200ms"),
        kv("_x_spec_enable", "1"),
        kv("volume", "30"),
        kv("mute", "0"),
        kv("_x_volume", "30"),
    ]);
    assert_eq!((vol.volume, vol.mute), (30, false));
}

#[test]
fn status_while_muted() {
    let mut f = vec![kv("volume", "0")];
    let mut vol = VolumeState { volume: 40, mute: true };
    decorate_status(&mut f, &extras(), &mut vol);
    let n = f.len();
    assert_eq!(f[n - 3], kv("volume", "40"));
    assert_eq!(f[n - 2], kv("mute", "1"));
    assert_eq!(f[n - 1], kv("_x_volume", "0"));
    assert_eq!((vol.volume, vol.mute), (40, true));
}

#[test]
fn playlist_entries() {
    let f = vec![kv("songid", "3"), kv("x", "y"), kv("nextsongid", "4")];
    assert_eq!(collect_song_ids(&f), vec![String::from("3"), String::from("4")]);
    assert_eq!(playlistid_command("3"), "playlistid 3");
    let mut g = vec![kv("a", "1")];
    let mut o = MpdComOk::new();
    o.flds.push(kv("file", "x.mp3"));
    merge_fields(&mut g, Ok(o));
    assert_eq!(g, vec![kv("a", "1"), kv("file", "x.mp3")]);
    merge_fields(&mut g, Err(MpdComErr::new(5)));
    assert_eq!(g.len(), 2);
    let s = MpdComOkStatus::from(MpdComOk { flds: vec![kv("k", "v")], bin: None });
    assert_eq!(s.status, vec![kv("k", "v")]);
}

fn plan(req: MpdComRequestType, vol: &mut VolumeState, connected: bool) -> String {
    match plan_request(&req, vol, connected) {
        RequestPlan::Stop => String::from("stop"),
        RequestPlan::Reply(Ok(_)) => String::from("ok"),
        RequestPlan::Reply(Err(e)) => format!("err {}", e.err_code),
        RequestPlan::Execute(c) => format!("run {}", c),
        RequestPlan::ExecuteMute(c, m) => format!("mute {} {}", c, m),
        RequestPlan::TestSound => String::from("testsound"),
    }
}

#[test]
fn request_plans() {
    let mut v = VolumeState { volume: 20, mute: false };
    assert_eq!(plan(MpdComRequestType::SetVol(String::from("50")), &mut v, true), "run setvol 50");
    assert_eq!(plan(MpdComRequestType::SetVol(String::from("101")), &mut v, true), "err -3");
    assert_eq!(plan(MpdComRequestType::SetVol(String::from("abc")), &mut v, true), "err -3");
    assert_eq!(plan(MpdComRequestType::SetMute(String::from("ON")), &mut v, true), "mute setvol 0 true");
    assert_eq!(plan(MpdComRequestType::SetMute(String::from("0")), &mut v, true), "mute setvol 20 false");
    assert_eq!(plan(MpdComRequestType::Cmd(String::from("close")), &mut v, true), "err -2");
    assert_eq!(plan(MpdComRequestType::Cmd(String::from("status")), &mut v, true), "run status");
    assert_eq!(plan(MpdComRequestType::Cmd(String::from("status")), &mut v, false), "err -2");
    assert_eq!(plan(MpdComRequestType::Nop, &mut v, true), "err -3");
    assert_eq!(plan(MpdComRequestType::Shutdown, &mut v, true), "stop");
    assert_eq!(plan(MpdComRequestType::TestSound, &mut v, true), "testsound");
    assert_eq!((v.volume, v.mute), (20, false));
    let mut m = VolumeState { volume: 20, mute: true };
    assert_eq!(plan(MpdComRequestType::SetVol(String::from("35")), &mut m, true), "ok");
    assert_eq!((m.volume, m.mute), (35, true));
    assert!(is_mute_word("True"));
    assert!(!is_mute_word("yes"));
    assert_eq!(connection_lost().err().unwrap().err_code, -2);
}

#[test]
fn volume_requests_without_connection() {
    let mut v = VolumeState { volume: 20, mute: false };
    assert_eq!(plan(MpdComRequestType::SetVol(String::from("50")), &mut v, false), "run setvol 50");
    assert_eq!(plan(MpdComRequestType::SetMute(String::from("on")), &mut v, false), "mute setvol 0 true");
    assert_eq!(plan(MpdComRequestType::SetMute(String::from("off")), &mut v, false), "mute setvol 20 false");
    assert_eq!(plan(MpdComRequestType::SetVol(String::from("101")), &mut v, false), "err -3");
    assert_eq!((v.volume, v.mute), (20, false));
    let mut m = VolumeState { volume: 20, mute: true };
    assert_eq!(plan(MpdComRequestType::SetVol(String::from("35")), &mut m, false), "ok");
    assert_eq!((m.volume, m.mute), (35, true));
}

#[test]
fn refused_volume_is_a_bare_error() {
    let mut v = VolumeState { volume: 20, mute: false };
    for arg in ["abc", "101", " 5"] {
        match plan_request(&MpdComRequestType::SetVol(String::from(arg)), &mut v, true) {
            RequestPlan::Reply(Err(e)) => {
                assert_eq!((e.err_code, e.cmd_index), (-3, 0));
                assert_eq!(e.cur_cmd, "");
                assert_eq!(e.msg_text, "");
            }
            _ => panic!("expected a refusal"),
        }
    }
    assert_eq!((v.volume, v.mute), (20, false));
}

#[test]
fn test_sounds() {
    let (url, cmd) = testsound_command("/a b.mp3");
    assert_eq!(url, "file:///a b.mp3");
    assert_eq!(cmd, "addid \"file:///a b.mp3\"");
    let mut run = TestSoundRun::new();
    let mut o = MpdComOk::new();
    o.flds.push(kv("Id", "7"));
    assert!(run.accept(String::from("u"), String::from("n"), Ok(o)));
    assert!(!run.accept(String::from("u2"), String::from("n2"), Err(MpdComErr::new(4))));
    assert_eq!(run.result().err().unwrap().err_code, 4);
    let mut run = TestSoundRun::new();
    let mut o = MpdComOk::new();
    o.flds.push(kv("Id", "7"));
    assert!(run.accept(String::from("u"), String::from("n"), Ok(o)));
    assert_eq!(run.result().ok().unwrap().flds, vec![kv("file", "u"), kv("Name", "n"), kv("Id", "7")]);
}

#[test]
fn connection_timing() {
    assert!(should_connect(false, None));
    assert!(!should_connect(false, Some(10_000_000_000)));
    assert!(should_connect(false, Some(10_000_000_001)));
    assert!(!should_connect(true, None));
    assert!(should_poll_status(true, Some(250_000_001)));
    assert!(!should_poll_status(true, Some(250_000_000)));
    assert!(!should_poll_status(false, None));
    assert_eq!(banner_version("OK MPD 0.21.11\n"), Some(String::from("0.21.11")));
    assert_eq!(banner_version("HELLO\n"), None);
}
