use bili_stream::fetch::{extract_streams, request_url, FetchError};
use bili_stream::flatten::{filter_urls, flatten_streams};
use bili_stream::options::{Format, Quality};

#[test]
fn request_url_for_low_quality() {
    assert_eq!(
        request_url(92613, &Quality::Low),
        "https://api.live.bilibili.com/xlive/web-room/v2/index/getRoomPlayInfo\
         ?qn=0&protocol=0,1&format=0,1,2&codec=0,1&room_id=92613"
    );
}

#[test]
fn request_url_for_high_quality() {
    assert_eq!(
        request_url(1, &Quality::High),
        "https://api.live.bilibili.com/xlive/web-room/v2/index/getRoomPlayInfo\
         ?qn=10000&protocol=0,1&format=0,1,2&codec=0,1&room_id=1"
    );
}

#[test]
fn good_body_yields_stream_urls() {
    let body = r#"{
        "code": 0,
        "data": {
            "live_status": 1,
            "playurl_info": {
                "playurl": {
                    "stream": [
                        {
                            "format": [
                                {
                                    "codec": [
                                        {
                                            "base_url": "/live.m3u8",
                                            "url_info": [
                                                {"host": "https://a.com", "extra": "?x=1"},
                                                {"host": "https://b.com", "extra": "?x=2"}
                                            ]
                                        }
                                    ]
                                }
                            ]
                        }
                    ]
                }
            }
        }
    }"#;
    let streams = extract_streams(body).unwrap();
    let urls = flatten_streams(&streams);
    assert_eq!(
        urls,
        vec!["https://a.com/live.m3u8?x=1".to_string(), "https://b.com/live.m3u8?x=2".to_string()]
    );
    let kept = filter_urls(&urls, &Format::M3u8);
    assert_eq!(kept, urls);
    assert_eq!(filter_urls(&urls, &Format::Flv), Vec::<String>::new());
}

#[test]
fn nonzero_code_is_an_api_error() {
    let body = r#"{"code": -400, "message": "error"}"#;
    assert_eq!(extract_streams(body).unwrap_err(), FetchError::ApiError);
}

#[test]
fn zero_live_status_means_not_live() {
    let body = r#"{"code": 0, "data": {"live_status": 0}}"#;
    assert_eq!(extract_streams(body).unwrap_err(), FetchError::NotLiveError);
}

#[test]
fn malformed_json_is_a_format_error() {
    assert_eq!(extract_streams("not json at all").unwrap_err(), FetchError::ResponseFormatError);
    assert_eq!(extract_streams("").unwrap_err(), FetchError::ResponseFormatError);
    assert_eq!(extract_streams("{\"code\": 0,").unwrap_err(), FetchError::ResponseFormatError);
}

#[test]
fn missing_code_is_a_format_error() {
    assert_eq!(extract_streams("{}").unwrap_err(), FetchError::ResponseFormatError);
    assert_eq!(extract_streams(r#"{"code": "0", "data": {"live_status": 1}}"#).unwrap_err(), FetchError::ResponseFormatError);
}

#[test]
fn missing_live_status_is_a_format_error() {
    assert_eq!(extract_streams(r#"{"code": 0}"#).unwrap_err(), FetchError::ResponseFormatError);
    assert_eq!(extract_streams(r#"{"code": 0, "data": {}}"#).unwrap_err(), FetchError::ResponseFormatError);
}

#[test]
fn missing_stream_array_is_a_format_error() {
    let body = r#"{"code": 0, "data": {"live_status": 1}}"#;
    assert_eq!(extract_streams(body).unwrap_err(), FetchError::ResponseFormatError);
    let body = r#"{"code": 0, "data": {"live_status": 1, "playurl_info": {"playurl": {"stream": 5}}}}"#;
    assert_eq!(extract_streams(body).unwrap_err(), FetchError::ResponseFormatError);
}

#[test]
fn mistyped_leaf_field_is_a_format_error() {
    let body = r#"{
        "code": 0,
        "data": {
            "live_status": 2,
            "playurl_info": {"playurl": {"stream": [
                {"format": [{"codec": [{"base_url": 7, "url_info": []}]}]}
            ]}}
        }
    }"#;
    assert_eq!(extract_streams(body).unwrap_err(), FetchError::ResponseFormatError);
}

#[test]
fn empty_stream_array_yields_no_urls() {
    let body = r#"{"code": 0, "data": {"live_status": 1, "playurl_info": {"playurl": {"stream": []}}}}"#;
    let streams = extract_streams(body).unwrap();
    assert_eq!(flatten_streams(&streams), Vec::<String>::new());
}
