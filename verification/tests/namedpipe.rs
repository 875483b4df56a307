use htipc::pipe_line::{failure, LineStep, NamedPipeError as LineError};
use htipc::namedpipe::{
    collect_lines, keep_connecting, search, status_word, NamedPipeError, Reply,
};
use htipc::pipe_args::PipeArgs;

fn strings(v: &[&str]) -> Vec<String> {
    v.iter().map(|s| s.to_string()).collect()
}

#[test]
fn namedpipe_it_works() {
    let req = htipc::namedpipe("namedpipe", "A B C");
    assert_eq!(req.address, r"\\.\pipe\namedpipe");
    assert_eq!(req.message, "A B C\r\n");
    assert_eq!(req.payload(), b"A B C\r\n".to_vec());
}

#[test]
fn request_from_args_ends_the_line() {
    let args = PipeArgs {
        addr: "SimpleGui".to_string(),
        commands: Some(strings(&["draw"])),
        connect_timeout: Some(5),
        read_timeout: None,
        write_timeout: None,
        json: Some(true),
    };
    let req = args.request();
    assert_eq!(req.address, r"\\.\pipe\SimpleGui");
    assert_eq!(req.message, "[\"draw\"]\r\n");
    let utf = htipc::namedpipe("p", "é");
    assert_eq!(utf.payload(), vec![0xc3, 0xa9, b'\r', b'\n']);
}

#[test]
fn it_works_search() {
    let names = strings(&["SimpleGui", "other", "xSimple", "Simple", "simplegui", "SimpleGuiMmf"]);
    assert_eq!(
        search("*Simple*", &names),
        strings(&["SimpleGui", "xSimple", "Simple", "SimpleGuiMmf"])
    );
}

#[test]
fn wildcards() {
    let names = strings(&["cat", "car", "ca", "cart", "", "dog"]);
    assert_eq!(search("ca?", &names), strings(&["cat", "car"]));
    assert_eq!(search("*", &names), names);
    assert_eq!(search("", &names), strings(&[""]));
    assert_eq!(search("c*t", &names), strings(&["cat", "cart"]));
    assert_eq!(search("cat", &names), strings(&["cat"]));
    assert_eq!(search("**a**", &names), strings(&["cat", "car", "ca", "cart"]));
}

#[test]
fn connect_timeout_in_milliseconds() {
    assert!(keep_connecting(None, u128::MAX));
    assert!(keep_connecting(Some(5), 4_999_999));
    assert!(!keep_connecting(Some(5), 5_000_000));
    assert!(!keep_connecting(Some(0), 0));
}

#[test]
fn reply_completes_at_a_line_feed() {
    let mut r = Reply::new();
    assert!(!r.is_complete());
    assert!(!r.on_read(Some(b"hel")));
    assert!(!r.on_read(None));
    assert!(!r.on_read(Some(b"lo\r")));
    assert!(r.on_read(Some(b"\nrest\r\n")));
    assert_eq!(r.text(), "hello\r\nrest\r\n");
    assert_eq!(r.joined_lines(), "hellorest");
}

#[test]
fn invalid_utf8_is_replaced() {
    let mut r = Reply::new();
    r.absorb(&[b'a', 0xff, b'b']);
    assert_eq!(r.text(), "a\u{fffd}b");
    r.absorb(&[0xe2, 0x82, 0xac]);
    assert_eq!(r.text(), "a\u{fffd}b\u{20ac}");
}

#[test]
fn lines_are_joined_without_endings() {
    assert_eq!(collect_lines(""), "");
    assert_eq!(collect_lines("a\nb\r\nc"), "abc");
    assert_eq!(collect_lines("a\rb\r"), "a\rb\r");
    assert_eq!(collect_lines("\n\n\r\n"), "");
    assert_eq!(collect_lines("x\r\r\ny"), "x\ry");
}

#[test]
fn error_messages() {
    assert_eq!(NamedPipeError::NoConnection("p".to_string()).message(), "NoConnection 'p'");
    assert_eq!(
        NamedPipeError::CommunicationError("flush".to_string()).message(),
        "NoConnectionErr flush"
    );
    assert_eq!(NamedPipeError::Timeout.message(), "Timeout");
}

#[test]
fn status_words() {
    assert_eq!(status_word::<String, NamedPipeError>(&Ok("x".to_string())), "OK");
    assert_eq!(status_word::<String, NamedPipeError>(&Err(NamedPipeError::Timeout)), "ERR");
}

#[test]
fn joining_lines_twice_changes_nothing_more() {
    for s in ["a\r\nb\nc\r", "\r\r\n\n", "plain", ""] {
        let once = collect_lines(s);
        assert!(!once.contains('\n'));
        assert_eq!(collect_lines(&once), once);
    }
}

#[test]
fn payload_reads_back_as_message() {
    let req = htipc::namedpipe("p", "héllo wörld €");
    let mut r = Reply::new();
    assert!(r.on_read(Some(&req.payload())));
    assert_eq!(r.text(), req.message);
}

#[test]
fn one_shot_errors_name_only_the_connection() {
    let req = htipc::namedpipe("namedpipe", "A B C");
    assert_eq!(failure(&req, LineStep::Connect).message(), r"NoConnection '\\.\pipe\namedpipe'");
    assert_eq!(failure(&req, LineStep::Write).message(), "NoConnectionErr");
    assert_eq!(failure(&req, LineStep::Flush).message(), "NoConnectionErr");
    assert_eq!(failure(&req, LineStep::Read).message(), "NoConnectionErr");
    assert_eq!(LineError::CommunicationError.message(), "NoConnectionErr");
    assert_eq!(LineError::Timeout.message(), "Timeout");
}
