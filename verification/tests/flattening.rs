use bili_stream::flatten::{
    filter_urls, flatten_streams, CodecNode, FormatNode, StreamDescriptor, UrlInfo,
};
use bili_stream::options::Format;

fn info(host: &str, extra: &str) -> UrlInfo {
    UrlInfo { host: host.to_string(), extra: extra.to_string() }
}

fn codec(base_url: &str, infos: Vec<UrlInfo>) -> CodecNode {
    CodecNode { base_url: base_url.to_string(), url_info: infos }
}

#[test]
fn single_leaf_concatenates_host_base_extra() {
    let streams = vec![StreamDescriptor {
        format: vec![FormatNode {
            codec: vec![codec("/live", vec![info("https://a.com", "?x=1")])],
        }],
    }];
    assert_eq!(flatten_streams(&streams), vec!["https://a.com/live?x=1".to_string()]);
}

#[test]
fn flattening_is_exhaustive_and_order_preserving() {
    // 2 formats x 2 codecs x 2 locations: exactly 8 URLs, depth first,
    // left to right.
    let streams = vec![StreamDescriptor {
        format: vec![
            FormatNode {
                codec: vec![
                    codec("/f1c1", vec![info("h1", "e1"), info("h2", "e2")]),
                    codec("/f1c2", vec![info("h3", "e3"), info("h4", "e4")]),
                ],
            },
            FormatNode {
                codec: vec![
                    codec("/f2c1", vec![info("h5", "e5"), info("h6", "e6")]),
                    codec("/f2c2", vec![info("h7", "e7"), info("h8", "e8")]),
                ],
            },
        ],
    }];
    let urls = flatten_streams(&streams);
    assert_eq!(
        urls,
        vec![
            "h1/f1c1e1".to_string(),
            "h2/f1c1e2".to_string(),
            "h3/f1c2e3".to_string(),
            "h4/f1c2e4".to_string(),
            "h5/f2c1e5".to_string(),
            "h6/f2c1e6".to_string(),
            "h7/f2c2e7".to_string(),
            "h8/f2c2e8".to_string(),
        ]
    );
}

#[test]
fn several_descriptors_keep_source_order() {
    let streams = vec![
        StreamDescriptor {
            format: vec![FormatNode { codec: vec![codec("/a", vec![info("x", "1")])] }],
        },
        StreamDescriptor {
            format: vec![FormatNode { codec: vec![codec("/b", vec![info("y", "2")])] }],
        },
    ];
    assert_eq!(flatten_streams(&streams), vec!["x/a1".to_string(), "y/b2".to_string()]);
}

#[test]
fn surrounding_quotes_are_stripped_from_each_component() {
    let streams = vec![StreamDescriptor {
        format: vec![FormatNode {
            codec: vec![codec("\"/live\"", vec![info("\"https://a.com\"", "\"?x=1\"")])],
        }],
    }];
    assert_eq!(flatten_streams(&streams), vec!["https://a.com/live?x=1".to_string()]);
}

#[test]
fn inner_quotes_survive_stripping() {
    let streams = vec![StreamDescriptor {
        format: vec![FormatNode {
            codec: vec![codec("b\"c", vec![info("\"\"a", "d\"\"")])],
        }],
    }];
    assert_eq!(flatten_streams(&streams), vec!["ab\"cd".to_string()]);
}

#[test]
fn empty_descriptor_list_flattens_to_nothing() {
    let streams: Vec<StreamDescriptor> = vec![];
    assert_eq!(flatten_streams(&streams), Vec::<String>::new());
}

#[test]
fn filter_keeps_matching_urls_in_order() {
    let urls = vec![
        "https://a.com/x.m3u8?k=1".to_string(),
        "https://b.com/x.flv?k=2".to_string(),
        "https://c.com/y.m3u8?k=3".to_string(),
    ];
    assert_eq!(
        filter_urls(&urls, &Format::M3u8),
        vec!["https://a.com/x.m3u8?k=1".to_string(), "https://c.com/y.m3u8?k=3".to_string()]
    );
    assert_eq!(filter_urls(&urls, &Format::Flv), vec!["https://b.com/x.flv?k=2".to_string()]);
}

#[test]
fn filter_drops_everything_without_the_token() {
    let urls = vec!["https://a.com/x".to_string(), "https://b.com/y".to_string()];
    assert_eq!(filter_urls(&urls, &Format::M3u8), Vec::<String>::new());
}

#[test]
fn filtering_an_empty_list_yields_an_empty_list() {
    let urls: Vec<String> = vec![];
    assert_eq!(filter_urls(&urls, &Format::Flv), Vec::<String>::new());
}
