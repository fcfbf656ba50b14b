//! The server of the settings page.

use proxypilot::websrv::{
    accept_loop, after_body, body_length, body_start, constant_time_eq, plain_reply, random_token, read_body,
    reply, serve_one, AcceptAction, AcceptEvent, Answer, Head, HeadRead, SettingsError,
    SettingsUrl, HTML, MAX_BODY, MAX_CONSECUTIVE_ACCEPT_ERRORS, TOKEN_BYTES,
};

const PORT: u16 = 5000;
const TOKEN: &str = "00ff10";

fn head(method: &str, target: &str) -> Head {
    Head {
        method: method.into(),
        target: target.into(),
        host: Some("127.0.0.1:5000".into()),
        origin: None,
        referer: None,
        content_length: None,
        leftover: vec![],
    }
}

fn answer(head: Head) -> (Answer, bool) {
    serve_one(&HeadRead::Head(head), TOKEN, PORT)
}

#[test]
fn the_token_comparison_is_length_and_content_sensitive() {
    assert!(constant_time_eq(b"abc", b"abc"));
    assert!(!constant_time_eq(b"abc", b"abd"));
    assert!(!constant_time_eq(b"abc", b"ab"));
    assert!(!constant_time_eq(b"abc", b"abcd"));
    assert!(!constant_time_eq(b"abc", b""));
    assert!(constant_time_eq(b"", b""));
}

#[test]
fn a_request_without_the_token_is_not_found() {
    assert_eq!(answer(head("GET", "/")), (Answer::NotFound, false));
    assert_eq!(answer(head("POST", "/")), (Answer::NotFound, false));
    assert_eq!(answer(head("GET", "")), (Answer::NotFound, false));
}

#[test]
fn a_wrong_token_is_not_found() {
    assert_eq!(answer(head("GET", "/00ff11")), (Answer::NotFound, false));
}

#[test]
fn a_truncated_token_is_not_found() {
    assert_eq!(answer(head("GET", "/00ff1")), (Answer::NotFound, false));
}

#[test]
fn the_right_token_serves_the_page() {
    assert_eq!(answer(head("GET", "/00ff10")), (Answer::Page, true));
    assert_eq!(answer(head("get", "/00ff10/")), (Answer::Page, true));
    assert_eq!(answer(head("PUT", "/00ff10")), (Answer::NotAllowed, true));
}

#[test]
fn the_query_string_does_not_hide_the_token() {
    assert_eq!(answer(head("GET", "/00ff10?x=1")), (Answer::Page, true));
    assert_eq!(answer(head("GET", "/00ff10#bench")), (Answer::Page, true));
}

#[test]
fn an_unknown_path_under_a_valid_token_is_not_found() {
    assert_eq!(answer(head("GET", "/00ff10/x")), (Answer::NotFound, false));
}

#[test]
fn a_state_changing_request_from_a_foreign_origin_is_rejected() {
    let mut h = head("POST", "/00ff10");
    h.origin = Some("http://evil.example".into());
    h.referer = Some("http://127.0.0.1:5000/00ff10".into());
    assert_eq!(answer(h), (Answer::Forbidden, true));
}

#[test]
fn a_state_changing_request_without_any_origin_is_rejected() {
    assert_eq!(answer(head("POST", "/00ff10")), (Answer::Forbidden, true));
}

#[test]
fn our_own_page_may_post() {
    let mut h = head("POST", "/00ff10");
    h.origin = Some("http://127.0.0.1:5000".into());
    assert_eq!(answer(h), (Answer::Form, true));
}

#[test]
fn an_opaque_origin_is_rejected() {
    let mut h = head("POST", "/00ff10");
    h.origin = Some("null".into());
    assert_eq!(answer(h), (Answer::Forbidden, true));
}

#[test]
fn a_referer_from_our_own_page_is_accepted_when_origin_is_missing() {
    let with = |referer: &str| {
        let mut h = head("POST", "/00ff10");
        h.referer = Some(referer.into());
        answer(h).0
    };
    assert_eq!(with("http://127.0.0.1:5000/00ff10"), Answer::Form);
    assert_eq!(with("http://127.0.0.1:5000"), Answer::Form);
    assert_eq!(with("http://127.0.0.1:50001/x"), Answer::Forbidden);
}

#[test]
fn a_foreign_host_header_is_not_found() {
    let mut h = head("GET", "/00ff10");
    h.host = Some("evil.example".into());
    assert_eq!(answer(h), (Answer::NotFound, false));
    let mut h = head("GET", "/00ff10");
    h.host = None;
    assert_eq!(answer(h), (Answer::NotFound, false));
}

#[test]
fn what_is_no_request_is_not_taken_for_one() {
    assert_eq!(
        serve_one(&HeadRead::Truncated, TOKEN, PORT),
        (Answer::Silence, false)
    );
    assert_eq!(serve_one(&HeadRead::Bad, TOKEN, PORT), (Answer::BadRequest, false));
}

#[test]
fn a_token_is_the_random_bytes_in_hexadecimal() {
    assert_eq!(random_token(0, &[0x00, 0xff, 0x10]), Ok("00ff10".to_string()));
    assert_eq!(random_token(0, &[0xab; TOKEN_BYTES]).unwrap().len(), 64);
    let e = random_token(-1073741823, &[]).unwrap_err();
    assert_eq!(e, SettingsError::Random(-1073741823));
    assert!(e.text().contains("0xC0000001") || e.text().contains("0xc0000001"), "{}", e.text());
    assert_eq!(
        SettingsError::Bind("занят".into()).text(),
        "не занять loopback-порт для страницы настроек: занят"
    );
}

#[test]
fn the_address_of_the_page_opens_the_page() {
    let url = SettingsUrl::new(PORT, TOKEN).url;
    assert_eq!(url, "http://127.0.0.1:5000/00ff10");
    let target = url.strip_prefix("http://127.0.0.1:5000").unwrap();
    assert_eq!(answer(head("GET", target)), (Answer::Page, true));
}

#[test]
fn a_body_is_as_long_as_it_says() {
    let mut h = head("POST", "/");
    assert_eq!(body_length(&h), Ok(0));
    h.content_length = Some(" 5 ".into());
    assert_eq!(body_length(&h), Ok(5));
    h.content_length = Some("-1".into());
    assert_eq!(body_length(&h), Err("нечитаемый Content-Length".to_string()));
    h.content_length = Some(format!("{}", MAX_BODY + 1));
    assert_eq!(body_length(&h), Err("тело формы больше допустимого".to_string()));
    h.leftover = b"abcdefg".to_vec();
    assert_eq!(body_start(&h, 5), b"abcde".to_vec());
    assert_eq!(body_start(&h, 9), b"abcdefg".to_vec());
    let mut body = b"ab".to_vec();
    assert_eq!(read_body(&mut body, b"c".to_vec(), 4), Ok(false));
    assert_eq!(read_body(&mut body, b"d".to_vec(), 4), Ok(true));
    assert_eq!(body, b"abcd".to_vec());
    assert_eq!(
        read_body(&mut body, vec![], 5),
        Err("тело формы оборвалось".to_string())
    );
}

#[test]
fn a_response_counts_bytes_and_keeps_to_itself() {
    assert_eq!(
        reply(200, HTML, "Жа"),
        "HTTP/1.1 200 OK\r\nContent-Type: text/html; charset=utf-8\r\nContent-Length: 4\r\n\
         Connection: close\r\nCache-Control: no-store\r\nReferrer-Policy: same-origin\r\n\
         X-Content-Type-Options: nosniff\r\nContent-Security-Policy: default-src 'self'; \
         style-src 'self' 'unsafe-inline'; form-action 'self'; frame-ancestors 'none'\r\n\r\n"
    );
    assert!(reply(418, HTML, "").starts_with("HTTP/1.1 418 Error\r\n"));
    assert_eq!(plain_reply(Answer::NotFound), Some((404, "Not Found\n")));
    assert_eq!(plain_reply(Answer::Forbidden), Some((403, "Forbidden\n")));
    assert_eq!(plain_reply(Answer::NotAllowed), Some((405, "Method Not Allowed\n")));
    assert_eq!(plain_reply(Answer::BadRequest), Some((400, "Bad Request\n")));
    assert_eq!(plain_reply(Answer::Page), None);
}

#[test]
fn the_door_closes_for_want_of_use_or_after_too_many_failures() {
    let idle = 900_000;
    assert_eq!(accept_loop(3, AcceptEvent::Stop, idle).1, AcceptAction::Close);
    assert_eq!(
        accept_loop(0, AcceptEvent::Deadline { unused_ms: idle }, idle).1,
        AcceptAction::Close
    );
    assert_eq!(
        accept_loop(0, AcceptEvent::Deadline { unused_ms: idle - 1 }, idle).1,
        AcceptAction::Wait
    );
    assert_eq!(
        accept_loop(7, AcceptEvent::Accepted { room: true }, idle),
        (0, AcceptAction::Serve)
    );
    assert_eq!(
        accept_loop(7, AcceptEvent::Accepted { room: false }, idle),
        (0, AcceptAction::Drop)
    );
    let mut errors: u32 = 0;
    let mut pauses: u32 = 0;
    loop {
        let (next, action) = accept_loop(errors, AcceptEvent::Failed, idle);
        errors = next;
        if action == AcceptAction::Close {
            break;
        }
        assert_eq!(action, AcceptAction::Pause);
        pauses += 1;
    }
    assert_eq!(errors, MAX_CONSECUTIVE_ACCEPT_ERRORS);
    assert_eq!(pauses, 63);
}

#[test]
fn an_unreadable_body_is_a_bad_request() {
    assert_eq!(after_body(Err("тело формы оборвалось".into())), Err((400, "Bad Request\n")));
    assert_eq!(after_body(Ok(b"a=1".to_vec())), Ok(b"a=1".to_vec()));
}
