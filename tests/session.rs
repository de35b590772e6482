use weesels::session::{auth_commands, body_len, handshake_request, version_reply, Error, ProtocolError, Wee};
use weesels::wire;

fn s(t: &str) -> Vec<u8> {
    let mut v = (t.len() as u32).to_be_bytes().to_vec();
    v.extend_from_slice(t.as_bytes());
    v
}

fn p(t: &str) -> Vec<u8> {
    let mut v = vec![t.len() as u8];
    v.extend_from_slice(t.as_bytes());
    v
}

fn i(n: i32) -> Vec<u8> {
    n.to_be_bytes().to_vec()
}

fn hda(id: &str, hpath: &str, keys: &str, rows: Vec<Vec<u8>>) -> Vec<u8> {
    let mut v = s(id);
    v.extend_from_slice(b"hda");
    v.extend(s(hpath));
    v.extend(s(keys));
    v.extend(i(rows.len() as i32));
    for r in rows {
        v.extend(r);
    }
    v
}

fn buffer_row(ptr: &str, number: i32, name: &str) -> Vec<u8> {
    let mut v = p(ptr);
    v.extend(i(number));
    v.extend(s(name));
    v.extend(s(name));
    v.extend(b"\xff\xff\xff\xff");
    v
}

fn buffers_reply(bufs: &[(&str, &str)]) -> Vec<u8> {
    let rows = bufs.iter().enumerate().map(|(n, (ptr, name))| buffer_row(ptr, n as i32 + 1, name)).collect();
    hda("gui_buffers", "buffer", "number:int,full_name:str,short_name:str,title:str", rows)
}

fn hotlist_reply(entries: &[(&str, [i32; 4])]) -> Vec<u8> {
    let rows = entries
        .iter()
        .map(|(ptr, c)| {
            let mut v = p("ff00");
            v.extend(i(0));
            v.extend(p(ptr));
            v.extend_from_slice(b"int");
            v.extend(i(4));
            for n in c {
                v.extend(i(*n));
            }
            v
        })
        .collect();
    hda("gui_hotlist", "hotlist", "priority:int,buffer:ptr,count:arr", rows)
}

const LINE_KEYS: &str =
    "buffer:ptr,date:tim,displayed:chr,highlight:chr,prefix:str,message:str,notify_level:chr";

fn line_cols(buffer: &str, message: &str, level: i8) -> Vec<u8> {
    let mut v = p(buffer);
    v.extend(p("1600000000"));
    v.push(1);
    v.push(0);
    v.extend(s("\x19F05nick"));
    v.extend(s(message));
    v.push(level as u8);
    v
}

fn lines_reply(id: &str, buffer: &str, lines: &[(&str, &str)]) -> Vec<u8> {
    let rows = lines
        .iter()
        .map(|(ptr, msg)| {
            let mut v = p(buffer);
            v.extend(p("aa"));
            v.extend(p(ptr));
            v.extend(p("bb"));
            v.extend(line_cols(buffer, msg, 1));
            v
        })
        .collect();
    hda(id, "buffer/lines/line/line_data", LINE_KEYS, rows)
}

fn line_added(buffer: &str, message: &str, level: i8) -> Vec<u8> {
    let mut row = p("cc");
    row.extend(line_cols(buffer, message, level));
    hda("_buffer_line_added", "line_data", LINE_KEYS, vec![row])
}

fn drain(wee: &mut Wee) -> Vec<String> {
    let mut out = vec![];
    while let Some(c) = wee.pop_outgoing() {
        out.push(c);
    }
    out
}

fn connected() -> Wee {
    let mut wee = Wee::new();
    wee.handle_one(&buffers_reply(&[("a1", "core.weechat"), ("b2", "irc.libera.#rust")])).unwrap();
    wee
}

#[test]
fn hotlist_sets_only_the_named_buffer() {
    let mut wee = connected();
    wee.handle_one(&hotlist_reply(&[("b2", [1, 2, 3, 4])])).unwrap();
    let bufs = wee.get_buffers();
    assert_eq!(2, bufs.len());
    assert_eq!((0, 0, 0, 0), bufs[0].hotlist);
    assert_eq!((1, 2, 3, 4), bufs[1].hotlist);
    assert_eq!("irc.libera.#rust", bufs[1].full_name);
    // with no current buffer, core.weechat becomes current and its backlog is asked for
    assert_eq!("core.weechat", wee.get_current_name());
    assert_eq!(
        vec![String::from("(backlog_lines) hdata buffer:0xa1/own_lines/last_line(-100)/data\n")],
        drain(&mut wee)
    );
    // a second hotlist without that entry zeroes it again
    wee.handle_one(&hotlist_reply(&[])).unwrap();
    assert_eq!((0, 0, 0, 0), wee.get_buffers()[1].hotlist);
}

#[test]
fn backlog_fills_cache_oldest_first_and_marks_read() {
    let mut wee = connected();
    wee.switch_current_buffer("irc.libera.#rust");
    assert_eq!(
        vec![String::from("(backlog_lines) hdata buffer:0xb2/own_lines/last_line(-100)/data\n")],
        drain(&mut wee)
    );
    wee.handle_one(&lines_reply("backlog_lines", "b2", &[("l3", "third"), ("l2", "second"), ("l1", "\x19F01first")]))
        .unwrap();
    let lines: Vec<&str> = wee.get_lines().iter().map(|l| l.message.as_str()).collect();
    assert_eq!(vec!["first", "second", "third"], lines);
    assert_eq!(Some(String::from("nick")), wee.get_lines()[0].prefix.clone());
    assert_eq!(Some(String::from("l1")), wee.get_lines()[0].ptr_line.clone());
    assert!(!wee.is_scrolling());
    assert_eq!(
        vec![
            String::from("input 0xb2 /buffer set hotlist -1\n"),
            String::from("(gui_hotlist) hdata hotlist:gui_hotlist(*)\n"),
        ],
        drain(&mut wee)
    );
    assert_eq!("irc.libera.#rust", wee.get_current_buffer().unwrap().full_name);
}

#[test]
fn line_added_appends_or_counts() {
    let mut wee = connected();
    wee.switch_current_buffer("core.weechat");
    wee.handle_one(&lines_reply("backlog_lines", "a1", &[("l1", "old")])).unwrap();
    drain(&mut wee);
    wee.handle_one(&line_added("a1", "\x19F02new", 1)).unwrap();
    let lines: Vec<&str> = wee.get_lines().iter().map(|l| l.message.as_str()).collect();
    assert_eq!(vec!["old", "new"], lines);
    assert_eq!(None, wee.get_lines()[1].ptr_line);
    wee.handle_one(&line_added("b2", "elsewhere", 2)).unwrap();
    assert_eq!(2, wee.get_lines().len());
    assert_eq!((0, 0, 1, 0), wee.get_buffers()[1].hotlist);
    assert_eq!((0, 0, 0, 0), wee.get_buffers()[0].hotlist);
    wee.handle_one(&line_added("b2", "quiet", -1)).unwrap();
    assert_eq!((0, 0, 1, 0), wee.get_buffers()[1].hotlist);
    wee.handle_one(&line_added("zz", "unknown buffer", 0)).unwrap();
    assert_eq!(2, wee.get_lines().len());
}

#[test]
fn cache_keeps_the_most_recent_lines() {
    let mut wee = connected();
    wee.switch_current_buffer("core.weechat");
    for n in 0..105 {
        wee.handle_one(&line_added("a1", &format!("m{}", n), 0)).unwrap();
    }
    assert_eq!(100, wee.get_lines().len());
    assert_eq!("m5", wee.get_lines()[0].message);
    assert_eq!("m104", wee.get_lines()[99].message);
}

#[test]
fn scroll_back_pages_from_a_cached_line() {
    let mut wee = connected();
    wee.switch_current_buffer("core.weechat");
    wee.handle_one(&lines_reply("backlog_lines", "a1", &[("l3", "c"), ("l2", "b"), ("l1", "a")])).unwrap();
    drain(&mut wee);
    wee.scroll_back(1);
    assert_eq!(vec![String::from("(scrollback_lines) hdata line:0xl2(-100)/data\n")], drain(&mut wee));
    wee.scroll_back(10);
    assert_eq!(vec![String::from("(scrollback_lines) hdata line:0xl1(-100)/data\n")], drain(&mut wee));
    wee.handle_one(&lines_reply("scrollback_lines", "a1", &[("l0", "z")])).unwrap();
    assert!(wee.is_scrolling());
    assert!(drain(&mut wee).is_empty());
    // while scrolled back, new lines of the current buffer are counted instead
    wee.handle_one(&line_added("a1", "later", 0)).unwrap();
    assert_eq!(1, wee.get_lines().len());
    assert_eq!((1, 0, 0, 0), wee.get_buffers()[0].hotlist);
}

#[test]
fn scroll_back_without_pointer_reloads_backlog() {
    let mut wee = connected();
    wee.switch_current_buffer("core.weechat");
    wee.handle_one(&line_added("a1", "only", 0)).unwrap();
    drain(&mut wee);
    wee.scroll_back(0);
    assert_eq!(
        vec![String::from("(backlog_lines) hdata buffer:0xa1/own_lines/last_line(-100)/data\n")],
        drain(&mut wee)
    );
}

#[test]
fn scroll_back_with_empty_cache_reloads_backlog() {
    let mut wee = connected();
    wee.switch_current_buffer("irc.libera.#rust");
    drain(&mut wee);
    assert!(wee.get_lines().is_empty());
    wee.scroll_back(3);
    assert_eq!(
        vec![String::from("(backlog_lines) hdata buffer:0xb2/own_lines/last_line(-100)/data\n")],
        drain(&mut wee)
    );
    assert!(wee.get_lines().is_empty());
    // with no known current buffer there is nothing to ask for
    let mut empty = Wee::new();
    empty.scroll_back(3);
    assert!(drain(&mut empty).is_empty());
}

#[test]
fn close_writes_quit_after_earlier_commands() {
    let mut wee = Wee::new();
    wee.send("sync", "sync");
    wee.close();
    assert_eq!(vec![String::from("(sync) sync\n"), String::from("(quit) quit\n")], drain(&mut wee));
    assert_eq!(None, wee.pop_outgoing());
}

#[test]
fn buffer_events_refresh_list_and_hotlist() {
    let mut wee = Wee::new();
    let mut body = s("_buffer_opened");
    body.extend_from_slice(b"whatever follows");
    wee.handle_one(&body).unwrap();
    assert_eq!(
        vec![
            String::from("(gui_buffers) hdata buffer:gui_buffers(*)\n"),
            String::from("(gui_hotlist) hdata hotlist:gui_hotlist(*)\n"),
        ],
        drain(&mut wee)
    );
}

#[test]
fn completion_is_kept_until_consumed() {
    let mut wee = Wee::new();
    let mut row = p("c0");
    row.extend(s("auto"));
    row.extend(s("he"));
    row.extend(i(1));
    row.extend(i(2));
    row.extend(i(1));
    row.extend_from_slice(b"str");
    row.extend(i(2));
    row.extend(s("help"));
    row.extend(s("hello"));
    let body = hda("completion", "completion", "context:str,base_word:str,pos_start:int,pos_end:int,add_space:int,list:arr", vec![row]);
    wee.handle_one(&body).unwrap();
    let c = wee.consume_completion().unwrap();
    assert_eq!(vec![String::from("help"), String::from("hello")], c.list);
    assert_eq!((1, 2, 1), (c.pos_start, c.pos_end, c.add_space));
    assert!(wee.consume_completion().is_none());
}

#[test]
fn unknown_ids_change_nothing() {
    let mut wee = connected();
    wee.handle_one(&s("_nicklist")).unwrap();
    assert_eq!(2, wee.get_buffers().len());
    assert!(drain(&mut wee).is_empty());
}

#[test]
fn wrong_shape_is_an_error() {
    let mut wee = Wee::new();
    let mut body = s("gui_buffers");
    body.extend_from_slice(b"int");
    body.extend(i(3));
    assert_eq!(Err(Error::Codec(wire::Error::ShapeMismatch)), wee.handle_one(&body));
    let bad = hda("gui_buffers", "buffer", "number:int", vec![{
        let mut r = p("a1");
        r.extend(i(1));
        r
    }]);
    assert_eq!(Err(Error::Codec(wire::Error::ShapeMismatch)), wee.handle_one(&bad));
    assert_eq!(Err(Error::Codec(wire::Error::UnexpectedEof)), wee.handle_one(b"\x00"));
}

#[test]
fn frame_header_rules() {
    assert_eq!(Ok(7), body_len(12, 0));
    assert_eq!(Err(Error::Protocol(ProtocolError::CompressionNotImplemented)), body_len(12, 1));
    assert_eq!(Err(Error::Codec(wire::Error::BadLength)), body_len(4, 0));
}

fn handshake_reply(algo: &str, nonce: &str) -> Vec<u8> {
    let mut v = s("handshake");
    v.extend_from_slice(b"htbstrstr");
    v.extend(i(5));
    for (k, val) in [
        ("password_hash_algo", algo),
        ("password_hash_iterations", "100000"),
        ("totp", "off"),
        ("nonce", nonce),
        ("compression", "off"),
    ] {
        v.extend(s(k));
        v.extend(s(val));
    }
    v
}

#[test]
fn preamble_commands() {
    assert_eq!(
        "(handshake) handshake compression=off,password_hash_algo=plain:sha256:sha512\n",
        handshake_request()
    );
    assert_eq!(
        Ok(String::from("init password=foobar\n(version_check) info version\n")),
        auth_commands(&handshake_reply("plain", "00"), "foobar")
    );
    assert_eq!(
        Err(Error::Auth(weesels::auth::AuthError::BadNonce)),
        auth_commands(&handshake_reply("sha256", "not hex"), "x")
    );
    let hashed = auth_commands(&handshake_reply("sha512", "85b1ee00695a5b254e14f4885538df0d"), "test").unwrap();
    assert!(hashed.starts_with("init password_hash=sha512:85b1ee00695a5b254e14f4885538df0d"));
    assert!(hashed.ends_with("\n(version_check) info version\n"));
    assert_eq!(
        Err(Error::Auth(weesels::auth::AuthError::UnsupportedAlgorithm)),
        auth_commands(&handshake_reply("pbkdf2+sha512", "00"), "x")
    );
    assert_eq!(
        Err(Error::Protocol(ProtocolError::UnexpectedReply)),
        auth_commands(&{
            let mut v = handshake_reply("plain", "00");
            v.splice(0..13, s("handshakX"));
            v
        }, "x")
    );
}

#[test]
fn closed_connection_during_version_check_means_bad_password() {
    assert_eq!(Err(Error::Protocol(ProtocolError::AuthFailed)), version_reply(None));
    assert_eq!(Err(Error::Protocol(ProtocolError::AuthFailed)), version_reply(Some(b"\x00\x00")));
    let ok = b"\x00\x00\x00\rversion_checkinf\x00\x00\x00\x07version\x00\x00\x00\x032.9";
    let info = version_reply(Some(ok)).unwrap();
    assert_eq!((String::from("version"), Some(String::from("2.9"))), info.inf);
    assert_eq!(
        "Connection unexpectedly closed. Check password.",
        ProtocolError::AuthFailed.message()
    );
    assert_eq!("compression not implemented", ProtocolError::CompressionNotImplemented.message());
    assert_eq!("expected handshake response", ProtocolError::UnexpectedReply.message());
}

#[test]
fn neighbours_of_the_current_buffer() {
    let mut wee = connected();
    assert_eq!(None, wee.neighbour(1));
    wee.switch_current_buffer("core.weechat");
    assert_eq!(Some(1), wee.neighbour(1));
    assert_eq!(None, wee.neighbour(-1));
    wee.switch_current_buffer("irc.libera.#rust");
    assert_eq!(Some(0), wee.neighbour(-1));
    assert_eq!(None, wee.neighbour(1));
}

#[test]
fn first_hot_buffer_needs_private_or_highlight() {
    let mut wee = connected();
    assert_eq!(None, wee.first_hot());
    wee.handle_one(&hotlist_reply(&[("a1", [5, 5, 0, 0]), ("b2", [0, 0, 0, 1])])).unwrap();
    assert_eq!(Some(1), wee.first_hot());
}

#[test]
fn input_goes_line_by_line_to_the_current_buffer() {
    let mut wee = connected();
    assert!(!wee.send_input("lost"));
    assert!(drain(&mut wee).is_empty());
    wee.switch_current_buffer("irc.libera.#rust");
    drain(&mut wee);
    assert!(wee.send_input("hello\nworld\n"));
    assert_eq!(
        vec![String::from("() input 0xb2 hello\n"), String::from("() input 0xb2 world\n")],
        drain(&mut wee)
    );
}

#[test]
fn completion_request_carries_position_and_text() {
    let mut wee = connected();
    wee.switch_current_buffer("core.weechat");
    drain(&mut wee);
    assert!(wee.request_completion(1234, "/he"));
    assert_eq!(vec![String::from("(completion) completion 0xa1 1234 /he\n")], drain(&mut wee));
    assert_eq!("0", weesels::session::decimal_text(0));
    assert_eq!("18446744073709551615", weesels::session::decimal_text(usize::MAX));
}
