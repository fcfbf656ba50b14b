//! Where updates come from.

use proxypilot::update::source::{
    download_https, get_https, parse_release_response, read_body, request, split_https_url,
    written_to, BodyStep, GithubSource, Phase, MAX_BODY,
};

fn asset(name: &str, url: &str) -> String {
    format!(r#"{{"name": "{name}", "browser_download_url": "{url}"}}"#)
}

fn release_body(tag: &str, assets: &[String]) -> String {
    format!(
        r#"{{"tag_name": "{tag}", "prerelease": false, "assets": [{}]}}"#,
        assets.join(",")
    )
}

#[test]
fn finds_our_asset_among_several_like_the_real_release_pipeline_produces() {
    let body = release_body(
        "v0.2.0",
        &[
            asset(
                "proxypilot-bridge.exe",
                "https://example.internal/bridge.exe",
            ),
            asset("proxypilot.exe", "https://example.internal/app.exe"),
        ],
    );
    let info = parse_release_response(&body, "proxypilot.exe").expect("должен разобраться");
    assert_eq!(info.tag, "v0.2.0");
    assert_eq!(info.asset_url, "https://example.internal/app.exe");
}

#[test]
fn a_release_without_our_asset_is_an_error() {
    let body = release_body(
        "v0.2.0",
        &[asset(
            "proxypilot-bridge.exe",
            "https://example.internal/bridge.exe",
        )],
    );
    let err = parse_release_response(&body, "proxypilot.exe").unwrap_err();
    assert!(err.contains("proxypilot.exe"), "получили: {err}");
}

#[test]
fn an_empty_releases_list_is_an_error_not_a_panic() {
    let err = parse_release_response("[]", "proxypilot.exe").unwrap_err();
    assert!(err.contains("tag_name"), "получили: {err}");
}

#[test]
fn malformed_json_is_an_error_not_a_panic() {
    let err = parse_release_response("не json вовсе", "proxypilot.exe").unwrap_err();
    assert!(!err.is_empty());
}

#[test]
fn truncated_json_is_an_error() {
    let err = parse_release_response(r#"{"tag_name": "v1.0"#, "proxypilot.exe").unwrap_err();
    assert!(!err.is_empty());
}

#[test]
fn splits_a_release_download_url() {
    let (host, path) = split_https_url(
        "https://github.com/denislibs/proxy-pilot/releases/download/v0.2.0/proxypilot.exe",
    )
    .expect("должен разобраться");
    assert_eq!(host, "github.com");
    assert_eq!(
        path,
        "/denislibs/proxy-pilot/releases/download/v0.2.0/proxypilot.exe"
    );
}

#[test]
fn rejects_a_non_https_url() {
    assert!(split_https_url("http://example.internal/x").is_err());
}

#[test]
fn only_the_status_200_is_a_reply() {
    assert_eq!(
        get_https("h", "/p", Ok((404, b"x".to_vec()))),
        Err("GitHub API ответил 404 на GET https://h/p".to_string())
    );
    assert_eq!(get_https("h", "/p", Ok((200, "Ж".as_bytes().to_vec()))), Ok("Ж".to_string()));
    assert_eq!(
        get_https("h", "/p", Ok((200, vec![0xff, 0xfe]))),
        Err("ответ GitHub не UTF-8".to_string())
    );
    assert_eq!(get_https("h", "/p", Err("нет сети".into())), Err("нет сети".to_string()));
    assert_eq!(
        download_https("h", "/p", Ok((500, vec![]))),
        Err("скачивание ответило 500 на GET https://h/p".to_string())
    );
    assert_eq!(download_https("h", "/p", Ok((200, vec![1, 2]))), Ok(vec![1, 2]));
}

#[test]
fn a_reply_ends_with_an_empty_piece_or_at_the_limit() {
    let mut body = vec![1];
    assert_eq!(read_body(&mut body, vec![2, 3]), BodyStep::More);
    assert_eq!(read_body(&mut body, vec![]), BodyStep::End);
    assert_eq!(body, vec![1, 2, 3]);
    let mut full = vec![0; MAX_BODY];
    assert_eq!(
        read_body(&mut full, vec![0]),
        BodyStep::TooLong("ответ длиннее ожидаемого — прервано".into())
    );
}

#[test]
fn an_address_needs_a_host() {
    assert_eq!(
        split_https_url("https:///x"),
        Err("пустой хост в ссылке: https:///x".to_string())
    );
    assert_eq!(
        split_https_url("ftp://x"),
        Err("ожидался https://: ftp://x".to_string())
    );
    assert_eq!(split_https_url("https://h"), Ok(("h".to_string(), "/".to_string())));
}

#[test]
fn a_port_is_part_of_neither_host_nor_path() {
    assert_eq!(
        split_https_url("https://example.internal:8443/x"),
        Ok(("example.internal".to_string(), "/x".to_string()))
    );
    assert_eq!(split_https_url("https://h:1"), Ok(("h".to_string(), "/".to_string())));
    assert_eq!(split_https_url("https://h/a:b"), Ok(("h".to_string(), "/a:b".to_string())));
    assert_eq!(
        split_https_url("https://:8443/x"),
        Err("пустой хост в ссылке: https://:8443/x".to_string())
    );
}

#[test]
fn the_last_release_comes_from_our_repository() {
    let source = GithubSource::default();
    assert_eq!(source.release_path(), "/repos/denislibs/proxy-pilot/releases/latest");
    let body = release_body("v0.3.0", &[asset("proxypilot.exe", "https://h/a.exe")]);
    let release = source.latest_release(Ok((200, body.into_bytes()))).unwrap();
    assert_eq!(release.tag, "v0.3.0");
    assert_eq!(release.asset_url, "https://h/a.exe");
    assert_eq!(
        source.latest_release(Ok((403, vec![]))),
        Err("GitHub API ответил 403 на GET https://api.github.com\
             /repos/denislibs/proxy-pilot/releases/latest"
            .to_string())
    );
}

#[test]
fn a_release_is_refused_for_each_missing_part() {
    let text = |body: &str| parse_release_response(body, "proxypilot.exe").unwrap_err();
    assert!(text("{").starts_with("ответ GitHub не разобрался: "));
    assert_eq!(text("{\"tag_name\": 1}"), "в ответе нет поля tag_name");
    assert_eq!(text("{\"tag_name\": \"v1\"}"), "в ответе нет списка assets");
    assert_eq!(
        text("{\"tag_name\": \"v1\", \"assets\": {}}"),
        "в ответе нет списка assets"
    );
    assert_eq!(
        text("{\"tag_name\": \"v1\", \"assets\": []}"),
        "в релизе v1 нет файла proxypilot.exe"
    );
    assert_eq!(
        text("{\"tag_name\": \"v1\", \"assets\": [{\"name\": \"proxypilot.exe\"}]}"),
        "у найденного ассета нет browser_download_url"
    );
}

#[test]
fn a_request_goes_through_its_calls_in_order() {
    let mut phase = Phase::Open;
    let mut seen = vec![phase];
    for _ in 0..8 {
        phase = request(phase, Ok(())).unwrap();
        seen.push(phase);
    }
    assert_eq!(
        seen,
        vec![
            Phase::Open,
            Phase::Connect,
            Phase::OpenRequest,
            Phase::Send,
            Phase::Receive,
            Phase::Status,
            Phase::Available,
            Phase::Read,
            Phase::Available,
        ]
    );
    assert_eq!(
        request(Phase::Send, Err(12007)),
        Err("WinHttpSendRequest: WinHTTP код ошибки 12007".to_string())
    );
    assert_eq!(
        request(Phase::Status, Err(0)),
        Err("WinHttpQueryHeaders(status): WinHTTP код ошибки 0".to_string())
    );
}

#[test]
fn a_file_that_could_not_be_written_is_named() {
    assert_eq!(written_to("d", Ok(())), Ok(()));
    assert_eq!(written_to("d", Err("диск".into())), Err("не записать d: диск".to_string()));
}
