//! The fetch side of a run: the request URL sent to the API, and the
//! validation of the JSON envelope that comes back — its `code`, the
//! room's `live_status`, and the nested stream-descriptor array, which is
//! converted into the library's own descriptor tree.
//!
//! JSON parsing itself is serde_json's; the one call into it stands behind
//! a trusted wrapper that hands back the library's own JSON tree, and
//! everything read out of that tree is verified against the model
//! `json_model` gives the body.

use vstd::prelude::*;
use vstd::string::StringExecFns;
use crate::flatten::{
    StreamDescriptor, FormatNode, CodecNode, UrlInfo, StreamModel, FormatModel, CodecModel,
    UrlInfoModel, streams_view, formats_view, codecs_view, infos_view,
};
use crate::json::{
    Json, JsonModel, json_get, json_as_int, json_as_array, json_as_string, jsons_view,
    lemma_jsons_view_props, spec_get, spec_as_arr, spec_int_at, spec_str_at, spec_arr_at,
};
use crate::options::Quality;
use crate::numeric::{u32_to_decimal, spec_decimal};

verus! {

/// Why a fetch failed: the transport itself, a body that is not the
/// expected JSON shape, a non-zero API code, or a room that is not live.
#[derive(Clone, Copy, PartialEq, Eq, Structural, Debug)]
pub enum FetchError {
    NetworkError,
    ResponseFormatError,
    ApiError,
    NotLiveError,
}

#[verifier::external_type_specification]
#[verifier::external_body]
pub struct ExValue(serde_json::Value);

/// Whether a string is well-formed JSON text, as serde_json's parser
/// decides it; the answer depends on the string alone.
pub uninterp spec fn json_wf(s: Seq<char>) -> bool;

/// The JSON tree that well-formed text parses to, as serde_json reads it;
/// the tree depends on the text alone.
pub uninterp spec fn json_model(s: Seq<char>) -> JsonModel;

/// Relies on serde_json::Value: converts a parsed value into the
/// library's tree, one arm per variant, keeping a number only as far as
/// Value::as_i64 reads it.
#[verifier::external_body]
fn value_to_json(v: &serde_json::Value) -> Json {
    match v {
        serde_json::Value::Null => Json::Null,
        serde_json::Value::Bool(b) => Json::Bool(*b),
        serde_json::Value::Number(n) => match n.as_i64() {
            Some(i) => Json::Int(i),
            None => Json::OtherNum,
        },
        serde_json::Value::String(s) => Json::Str(s.clone()),
        serde_json::Value::Array(a) => Json::Arr(a.iter().map(value_to_json).collect()),
        serde_json::Value::Object(m) => Json::Obj(
            m.iter().map(|(k, x)| (k.clone(), value_to_json(x))).collect(),
        ),
    }
}

/// Relies on serde_json::from_str::<Value>: parsing succeeds exactly on
/// well-formed JSON text, and equal text always parses to the tree that
/// `json_model` names.
#[verifier::external_body]
fn parse_json_tree(s: &str) -> (r: Option<Json>)
    ensures
        r is Some <==> json_wf(s@),
        r matches Some(t) ==> t@ == json_model(s@),
{
    match serde_json::from_str::<serde_json::Value>(s) {
        Ok(v) => Some(value_to_json(&v)),
        Err(_) => None,
    }
}

/// The URL of the one API request: the fixed endpoint with the quality's
/// numeric value and the room id as query parameters.
pub open spec fn spec_request_url(room_id: u32, quality: Quality) -> Seq<char> {
    "https://api.live.bilibili.com/xlive/web-room/v2/index/getRoomPlayInfo?qn="@
        + spec_decimal(quality.spec_value() as int)
        + "&protocol=0,1&format=0,1,2&codec=0,1&room_id="@ + spec_decimal(room_id as int)
}

/// Build the API request URL for a room and quality tier.
pub fn request_url(room_id: u32, quality: &Quality) -> (r: String)
    ensures
        r@ == spec_request_url(room_id, *quality),
{
    let mut url = String::from_str(
        "https://api.live.bilibili.com/xlive/web-room/v2/index/getRoomPlayInfo?qn=",
    );
    let qn = u32_to_decimal(quality.value());
    url.append(qn.as_str());
    url.append("&protocol=0,1&format=0,1,2&codec=0,1&room_id=");
    let rid = u32_to_decimal(room_id);
    url.append(rid.as_str());
    proof {
        assert(url@ =~= spec_request_url(room_id, *quality));
    }
    url
}

/// The verdict over the envelope's two guard fields, each `None` when
/// missing or not an integer: a missing field is a structural error, a
/// non-zero `code` an API error, a zero `live_status` a room that is not
/// live; otherwise the envelope is good.
pub open spec fn spec_envelope_verdict(code: Option<i64>, live_status: Option<i64>) -> Result<
    (),
    FetchError,
> {
    match code {
        None => Err(FetchError::ResponseFormatError),
        Some(c) => if c != 0 {
            Err(FetchError::ApiError)
        } else {
            match live_status {
                None => Err(FetchError::ResponseFormatError),
                Some(ls) => if ls == 0 {
                    Err(FetchError::NotLiveError)
                } else {
                    Ok(())
                },
            }
        },
    }
}

/// Decide whether the envelope's guard fields allow the run to go on.
pub fn envelope_verdict(code: Option<i64>, live_status: Option<i64>) -> (r: Result<
    (),
    FetchError,
>)
    ensures
        r == spec_envelope_verdict(code, live_status),
{
    match code {
        None => Err(FetchError::ResponseFormatError),
        Some(c) => if c != 0 {
            Err(FetchError::ApiError)
        } else {
            match live_status {
                None => Err(FetchError::ResponseFormatError),
                Some(ls) => if ls == 0 {
                    Err(FetchError::NotLiveError)
                } else {
                    Ok(())
                },
            }
        },
    }
}

/// One location read from its JSON node: `host` and `extra` must be
/// strings; anything else is a structural error.
pub open spec fn spec_info(m: JsonModel) -> Result<UrlInfoModel, FetchError> {
    match (spec_str_at(m, "host"@), spec_str_at(m, "extra"@)) {
        (Some(h), Some(x)) => Ok(UrlInfoModel { host: h, extra: x }),
        _ => Err(FetchError::ResponseFormatError),
    }
}

/// The locations read from a JSON array, in order; the first structural
/// error is fatal.
pub open spec fn spec_infos(items: Seq<JsonModel>) -> Result<Seq<UrlInfoModel>, FetchError>
    decreases items.len(),
{
    if items.len() == 0 {
        Ok(Seq::empty())
    } else {
        match (spec_infos(items.drop_last()), spec_info(items.last())) {
            (Ok(pre), Ok(h)) => Ok(pre.push(h)),
            _ => Err(FetchError::ResponseFormatError),
        }
    }
}

/// One codec entry read from its JSON node: `base_url` must be a string
/// and `url_info` an array of locations.
pub open spec fn spec_codec(m: JsonModel) -> Result<CodecModel, FetchError> {
    match (spec_str_at(m, "base_url"@), spec_arr_at(m, "url_info"@)) {
        (Some(b), Some(items)) => match spec_infos(items) {
            Ok(is) => Ok(CodecModel { base_url: b, url_info: is }),
            Err(e) => Err(e),
        },
        _ => Err(FetchError::ResponseFormatError),
    }
}

/// The codec entries read from a JSON array, in order.
pub open spec fn spec_codecs(items: Seq<JsonModel>) -> Result<Seq<CodecModel>, FetchError>
    decreases items.len(),
{
    if items.len() == 0 {
        Ok(Seq::empty())
    } else {
        match (spec_codecs(items.drop_last()), spec_codec(items.last())) {
            (Ok(pre), Ok(h)) => Ok(pre.push(h)),
            _ => Err(FetchError::ResponseFormatError),
        }
    }
}

/// One format entry read from its JSON node: `codec` must be an array of
/// codec entries.
pub open spec fn spec_format(m: JsonModel) -> Result<FormatModel, FetchError> {
    match spec_arr_at(m, "codec"@) {
        Some(items) => match spec_codecs(items) {
            Ok(cs) => Ok(FormatModel { codec: cs }),
            Err(e) => Err(e),
        },
        None => Err(FetchError::ResponseFormatError),
    }
}

/// The format entries read from a JSON array, in order.
pub open spec fn spec_formats(items: Seq<JsonModel>) -> Result<Seq<FormatModel>, FetchError>
    decreases items.len(),
{
    if items.len() == 0 {
        Ok(Seq::empty())
    } else {
        match (spec_formats(items.drop_last()), spec_format(items.last())) {
            (Ok(pre), Ok(h)) => Ok(pre.push(h)),
            _ => Err(FetchError::ResponseFormatError),
        }
    }
}

/// One stream descriptor read from its JSON node: `format` must be an
/// array of format entries.
pub open spec fn spec_stream(m: JsonModel) -> Result<StreamModel, FetchError> {
    match spec_arr_at(m, "format"@) {
        Some(items) => match spec_formats(items) {
            Ok(fs) => Ok(StreamModel { format: fs }),
            Err(e) => Err(e),
        },
        None => Err(FetchError::ResponseFormatError),
    }
}

/// The stream descriptors read from a JSON array, in order.
pub open spec fn spec_streams(items: Seq<JsonModel>) -> Result<Seq<StreamModel>, FetchError>
    decreases items.len(),
{
    if items.len() == 0 {
        Ok(Seq::empty())
    } else {
        match (spec_streams(items.drop_last()), spec_stream(items.last())) {
            (Ok(pre), Ok(h)) => Ok(pre.push(h)),
            _ => Err(FetchError::ResponseFormatError),
        }
    }
}

/// The node under `data.playurl_info.playurl.stream`, if every step of
/// the path exists.
pub open spec fn spec_stream_node(m: JsonModel) -> Option<JsonModel> {
    match spec_get(m, "data"@) {
        Some(d) => match spec_get(d, "playurl_info"@) {
            Some(p) => match spec_get(p, "playurl"@) {
                Some(pl) => spec_get(pl, "stream"@),
                None => None,
            },
            None => None,
        },
        None => None,
    }
}

/// What validating a response whose model is `m` yields: the envelope
/// verdict over `code` and `data.live_status` first; then the descriptors
/// read from the `data.playurl_info.playurl.stream` array, a missing or
/// mistyped field along that path being a structural error.
pub open spec fn spec_extract(m: JsonModel) -> Result<Seq<StreamModel>, FetchError> {
    let code = spec_int_at(m, "code"@);
    let live = match spec_get(m, "data"@) {
        Some(d) => spec_int_at(d, "live_status"@),
        None => None,
    };
    match spec_envelope_verdict(code, live) {
        Err(e) => Err(e),
        Ok(_) => match spec_stream_node(m) {
            Some(sv) => match spec_as_arr(sv) {
                Some(items) => spec_streams(items),
                None => Err(FetchError::ResponseFormatError),
            },
            None => Err(FetchError::ResponseFormatError),
        },
    }
}

fn convert_info(j: &Json) -> (r: Result<UrlInfo, FetchError>)
    ensures
        r matches Ok(u) ==> spec_info(j@) == Ok::<UrlInfoModel, FetchError>(u@),
        r matches Err(e) ==> spec_info(j@) == Err::<UrlInfoModel, FetchError>(e),
{
    let host = match json_get(j, "host") {
        Some(h) => match json_as_string(h) {
            Some(s) => s.clone(),
            None => {
                return Err(FetchError::ResponseFormatError);
            },
        },
        None => {
            return Err(FetchError::ResponseFormatError);
        },
    };
    let extra = match json_get(j, "extra") {
        Some(x) => match json_as_string(x) {
            Some(s) => s.clone(),
            None => {
                return Err(FetchError::ResponseFormatError);
            },
        },
        None => {
            return Err(FetchError::ResponseFormatError);
        },
    };
    Ok(UrlInfo { host, extra })
}

proof fn lemma_infos_err_to_end(items: Seq<JsonModel>, j: int)
    requires
        0 <= j <= items.len(),
        spec_infos(items.take(j)) is Err,
    ensures
        spec_infos(items) == Err::<Seq<UrlInfoModel>, FetchError>(FetchError::ResponseFormatError),
    decreases items.len() - j,
{
    if j == items.len() {
        assert(items.take(j) =~= items);
    } else {
        assert(items.take(j + 1).drop_last() =~= items.take(j));
        lemma_infos_err_to_end(items, j + 1);
    }
}

fn convert_infos(items: &Vec<Json>) -> (r: Result<Vec<UrlInfo>, FetchError>)
    ensures
        r matches Ok(v) ==> spec_infos(jsons_view(items@)) == Ok::<Seq<UrlInfoModel>, FetchError>(
            infos_view(v@),
        ),
        r matches Err(e) ==> spec_infos(jsons_view(items@)) == Err::<
            Seq<UrlInfoModel>,
            FetchError,
        >(e),
{
    proof {
        lemma_jsons_view_props(items@);
    }
    let ghost ms = jsons_view(items@);
    let mut out: Vec<UrlInfo> = Vec::new();
    proof {
        assert(ms.take(0) =~= Seq::<JsonModel>::empty());
        assert(infos_view(out@) =~= Seq::<UrlInfoModel>::empty());
    }
    let mut i: usize = 0;
    while i < items.len()
        invariant
            0 <= i <= items@.len(),
            ms == jsons_view(items@),
            ms.len() == items@.len(),
            forall|l: int| 0 <= l < items@.len() ==> #[trigger] ms[l] == items@[l]@,
            spec_infos(ms.take(i as int)) == Ok::<Seq<UrlInfoModel>, FetchError>(infos_view(out@)),
        decreases items@.len() - i,
    {
        let ghost old_out = out@;
        match convert_info(&items[i]) {
            Ok(u) => {
                out.push(u);
                proof {
                    assert(ms.take(i as int + 1).drop_last() =~= ms.take(i as int));
                    assert(ms.take(i as int + 1).last() == ms[i as int]);
                    assert(infos_view(out@) =~= infos_view(old_out).push(u@));
                }
            },
            Err(e) => {
                proof {
                    assert(ms.take(i as int + 1).drop_last() =~= ms.take(i as int));
                    assert(ms.take(i as int + 1).last() == ms[i as int]);
                    assert(spec_infos(ms.take(i as int + 1)) is Err);
                    lemma_infos_err_to_end(ms, i as int + 1);
                }
                return Err(e);
            },
        }
        i = i + 1;
    }
    proof {
        assert(ms.take(ms.len() as int) =~= ms);
    }
    Ok(out)
}

fn convert_codec(j: &Json) -> (r: Result<CodecNode, FetchError>)
    ensures
        r matches Ok(c) ==> spec_codec(j@) == Ok::<CodecModel, FetchError>(c@),
        r matches Err(e) ==> spec_codec(j@) == Err::<CodecModel, FetchError>(e),
{
    let base_url = match json_get(j, "base_url") {
        Some(b) => match json_as_string(b) {
            Some(s) => s.clone(),
            None => {
                return Err(FetchError::ResponseFormatError);
            },
        },
        None => {
            return Err(FetchError::ResponseFormatError);
        },
    };
    let arr = match json_get(j, "url_info") {
        Some(u) => match json_as_array(u) {
            Some(a) => a,
            None => {
                return Err(FetchError::ResponseFormatError);
            },
        },
        None => {
            return Err(FetchError::ResponseFormatError);
        },
    };
    match convert_infos(arr) {
        Ok(url_info) => Ok(CodecNode { base_url, url_info }),
        Err(e) => Err(e),
    }
}

proof fn lemma_codecs_err_to_end(items: Seq<JsonModel>, j: int)
    requires
        0 <= j <= items.len(),
        spec_codecs(items.take(j)) is Err,
    ensures
        spec_codecs(items) == Err::<Seq<CodecModel>, FetchError>(FetchError::ResponseFormatError),
    decreases items.len() - j,
{
    if j == items.len() {
        assert(items.take(j) =~= items);
    } else {
        assert(items.take(j + 1).drop_last() =~= items.take(j));
        lemma_codecs_err_to_end(items, j + 1);
    }
}

fn convert_codecs(items: &Vec<Json>) -> (r: Result<Vec<CodecNode>, FetchError>)
    ensures
        r matches Ok(v) ==> spec_codecs(jsons_view(items@)) == Ok::<Seq<CodecModel>, FetchError>(
            codecs_view(v@),
        ),
        r matches Err(e) ==> spec_codecs(jsons_view(items@)) == Err::<
            Seq<CodecModel>,
            FetchError,
        >(e),
{
    proof {
        lemma_jsons_view_props(items@);
    }
    let ghost ms = jsons_view(items@);
    let mut out: Vec<CodecNode> = Vec::new();
    proof {
        assert(ms.take(0) =~= Seq::<JsonModel>::empty());
        assert(codecs_view(out@) =~= Seq::<CodecModel>::empty());
    }
    let mut i: usize = 0;
    while i < items.len()
        invariant
            0 <= i <= items@.len(),
            ms == jsons_view(items@),
            ms.len() == items@.len(),
            forall|l: int| 0 <= l < items@.len() ==> #[trigger] ms[l] == items@[l]@,
            spec_codecs(ms.take(i as int)) == Ok::<Seq<CodecModel>, FetchError>(codecs_view(out@)),
        decreases items@.len() - i,
    {
        let ghost old_out = out@;
        match convert_codec(&items[i]) {
            Ok(c) => {
                out.push(c);
                proof {
                    assert(ms.take(i as int + 1).drop_last() =~= ms.take(i as int));
                    assert(ms.take(i as int + 1).last() == ms[i as int]);
                    assert(codecs_view(out@) =~= codecs_view(old_out).push(c@));
                }
            },
            Err(e) => {
                proof {
                    assert(ms.take(i as int + 1).drop_last() =~= ms.take(i as int));
                    assert(ms.take(i as int + 1).last() == ms[i as int]);
                    assert(spec_codecs(ms.take(i as int + 1)) is Err);
                    lemma_codecs_err_to_end(ms, i as int + 1);
                }
                return Err(e);
            },
        }
        i = i + 1;
    }
    proof {
        assert(ms.take(ms.len() as int) =~= ms);
    }
    Ok(out)
}

fn convert_format(j: &Json) -> (r: Result<FormatNode, FetchError>)
    ensures
        r matches Ok(f) ==> spec_format(j@) == Ok::<FormatModel, FetchError>(f@),
        r matches Err(e) ==> spec_format(j@) == Err::<FormatModel, FetchError>(e),
{
    let arr = match json_get(j, "codec") {
        Some(c) => match json_as_array(c) {
            Some(a) => a,
            None => {
                return Err(FetchError::ResponseFormatError);
            },
        },
        None => {
            return Err(FetchError::ResponseFormatError);
        },
    };
    match convert_codecs(arr) {
        Ok(codec) => Ok(FormatNode { codec }),
        Err(e) => Err(e),
    }
}

proof fn lemma_formats_err_to_end(items: Seq<JsonModel>, j: int)
    requires
        0 <= j <= items.len(),
        spec_formats(items.take(j)) is Err,
    ensures
        spec_formats(items) == Err::<Seq<FormatModel>, FetchError>(FetchError::ResponseFormatError),
    decreases items.len() - j,
{
    if j == items.len() {
        assert(items.take(j) =~= items);
    } else {
        assert(items.take(j + 1).drop_last() =~= items.take(j));
        lemma_formats_err_to_end(items, j + 1);
    }
}

fn convert_formats(items: &Vec<Json>) -> (r: Result<Vec<FormatNode>, FetchError>)
    ensures
        r matches Ok(v) ==> spec_formats(jsons_view(items@)) == Ok::<Seq<FormatModel>, FetchError>(
            formats_view(v@),
        ),
        r matches Err(e) ==> spec_formats(jsons_view(items@)) == Err::<
            Seq<FormatModel>,
            FetchError,
        >(e),
{
    proof {
        lemma_jsons_view_props(items@);
    }
    let ghost ms = jsons_view(items@);
    let mut out: Vec<FormatNode> = Vec::new();
    proof {
        assert(ms.take(0) =~= Seq::<JsonModel>::empty());
        assert(formats_view(out@) =~= Seq::<FormatModel>::empty());
    }
    let mut i: usize = 0;
    while i < items.len()
        invariant
            0 <= i <= items@.len(),
            ms == jsons_view(items@),
            ms.len() == items@.len(),
            forall|l: int| 0 <= l < items@.len() ==> #[trigger] ms[l] == items@[l]@,
            spec_formats(ms.take(i as int)) == Ok::<Seq<FormatModel>, FetchError>(
                formats_view(out@),
            ),
        decreases items@.len() - i,
    {
        let ghost old_out = out@;
        match convert_format(&items[i]) {
            Ok(f) => {
                out.push(f);
                proof {
                    assert(ms.take(i as int + 1).drop_last() =~= ms.take(i as int));
                    assert(ms.take(i as int + 1).last() == ms[i as int]);
                    assert(formats_view(out@) =~= formats_view(old_out).push(f@));
                }
            },
            Err(e) => {
                proof {
                    assert(ms.take(i as int + 1).drop_last() =~= ms.take(i as int));
                    assert(ms.take(i as int + 1).last() == ms[i as int]);
                    assert(spec_formats(ms.take(i as int + 1)) is Err);
                    lemma_formats_err_to_end(ms, i as int + 1);
                }
                return Err(e);
            },
        }
        i = i + 1;
    }
    proof {
        assert(ms.take(ms.len() as int) =~= ms);
    }
    Ok(out)
}

fn convert_stream(j: &Json) -> (r: Result<StreamDescriptor, FetchError>)
    ensures
        r matches Ok(s) ==> spec_stream(j@) == Ok::<StreamModel, FetchError>(s@),
        r matches Err(e) ==> spec_stream(j@) == Err::<StreamModel, FetchError>(e),
{
    let arr = match json_get(j, "format") {
        Some(f) => match json_as_array(f) {
            Some(a) => a,
            None => {
                return Err(FetchError::ResponseFormatError);
            },
        },
        None => {
            return Err(FetchError::ResponseFormatError);
        },
    };
    match convert_formats(arr) {
        Ok(format) => Ok(StreamDescriptor { format }),
        Err(e) => Err(e),
    }
}

proof fn lemma_streams_err_to_end(items: Seq<JsonModel>, j: int)
    requires
        0 <= j <= items.len(),
        spec_streams(items.take(j)) is Err,
    ensures
        spec_streams(items) == Err::<Seq<StreamModel>, FetchError>(FetchError::ResponseFormatError),
    decreases items.len() - j,
{
    if j == items.len() {
        assert(items.take(j) =~= items);
    } else {
        assert(items.take(j + 1).drop_last() =~= items.take(j));
        lemma_streams_err_to_end(items, j + 1);
    }
}

fn convert_streams(items: &Vec<Json>) -> (r: Result<Vec<StreamDescriptor>, FetchError>)
    ensures
        r matches Ok(v) ==> spec_streams(jsons_view(items@)) == Ok::<Seq<StreamModel>, FetchError>(
            streams_view(v@),
        ),
        r matches Err(e) ==> spec_streams(jsons_view(items@)) == Err::<
            Seq<StreamModel>,
            FetchError,
        >(e),
{
    proof {
        lemma_jsons_view_props(items@);
    }
    let ghost ms = jsons_view(items@);
    let mut out: Vec<StreamDescriptor> = Vec::new();
    proof {
        assert(ms.take(0) =~= Seq::<JsonModel>::empty());
        assert(streams_view(out@) =~= Seq::<StreamModel>::empty());
    }
    let mut i: usize = 0;
    while i < items.len()
        invariant
            0 <= i <= items@.len(),
            ms == jsons_view(items@),
            ms.len() == items@.len(),
            forall|l: int| 0 <= l < items@.len() ==> #[trigger] ms[l] == items@[l]@,
            spec_streams(ms.take(i as int)) == Ok::<Seq<StreamModel>, FetchError>(
                streams_view(out@),
            ),
        decreases items@.len() - i,
    {
        let ghost old_out = out@;
        match convert_stream(&items[i]) {
            Ok(s) => {
                out.push(s);
                proof {
                    assert(ms.take(i as int + 1).drop_last() =~= ms.take(i as int));
                    assert(ms.take(i as int + 1).last() == ms[i as int]);
                    assert(streams_view(out@) =~= streams_view(old_out).push(s@));
                }
            },
            Err(e) => {
                proof {
                    assert(ms.take(i as int + 1).drop_last() =~= ms.take(i as int));
                    assert(ms.take(i as int + 1).last() == ms[i as int]);
                    assert(spec_streams(ms.take(i as int + 1)) is Err);
                    lemma_streams_err_to_end(ms, i as int + 1);
                }
                return Err(e);
            },
        }
        i = i + 1;
    }
    proof {
        assert(ms.take(ms.len() as int) =~= ms);
    }
    Ok(out)
}

/// Validate an API response body and extract its stream descriptors.
///
/// A body that is not well-formed JSON is a structural error; otherwise
/// the result is exactly what `spec_extract` yields on the body's model:
/// the envelope verdict over `code` and `live_status` first, then the
/// descriptors under `data.playurl_info.playurl.stream`, a missing or
/// mistyped field along that path being a structural error. A network
/// failure never originates here, so that error is never returned.
pub fn extract_streams(body: &str) -> (r: Result<Vec<StreamDescriptor>, FetchError>)
    ensures
        !json_wf(body@) ==> r == Err::<Vec<StreamDescriptor>, FetchError>(
            FetchError::ResponseFormatError,
        ),
        json_wf(body@) ==> ({
            let v = spec_extract(json_model(body@));
            &&& (r matches Ok(ss) ==> v == Ok::<Seq<StreamModel>, FetchError>(streams_view(ss@)))
            &&& (r matches Err(e) ==> v == Err::<Seq<StreamModel>, FetchError>(e))
        }),
        r matches Err(e) ==> e != FetchError::NetworkError,
{
    let tree = match parse_json_tree(body) {
        Some(t) => t,
        None => {
            return Err(FetchError::ResponseFormatError);
        },
    };
    let ghost m = json_model(body@);
    let code: Option<i64> = match json_get(&tree, "code") {
        Some(c) => json_as_int(c),
        None => None,
    };
    let data = json_get(&tree, "data");
    let live_status: Option<i64> = match data {
        Some(d) => match json_get(d, "live_status") {
            Some(l) => json_as_int(l),
            None => None,
        },
        None => None,
    };
    match envelope_verdict(code, live_status) {
        Ok(_) => (),
        Err(e) => {
            return Err(e);
        },
    }
    let stream_node = match data {
        Some(d) => match json_get(d, "playurl_info") {
            Some(p) => match json_get(p, "playurl") {
                Some(pl) => json_get(pl, "stream"),
                None => None,
            },
            None => None,
        },
        None => None,
    };
    let items = match stream_node {
        Some(sv) => match json_as_array(sv) {
            Some(a) => a,
            None => {
                return Err(FetchError::ResponseFormatError);
            },
        },
        None => {
            return Err(FetchError::ResponseFormatError);
        },
    };
    convert_streams(items)
}

} // verus!
