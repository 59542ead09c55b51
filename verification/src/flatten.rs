//! Stream descriptors and the URL flattener: the nested
//! stream / format / codec / url_info tree is walked depth-first,
//! left-to-right, and every codec x url_info combination yields one full
//! URL `host ++ base_url ++ extra`, each component stripped of surrounding
//! quote characters. Nothing is dropped, deduplicated or reordered.

use vstd::prelude::*;
use vstd::string::StringExecFns;
use crate::text::{spec_strip_quotes, spec_contains, strip_quotes, contains_substr};
use crate::options::Format;

verus! {

/// One candidate location of a stream: the host and the trailing query
/// fragment that surround a codec's base URL.
#[derive(Debug)]
pub struct UrlInfo {
    pub host: String,
    pub extra: String,
}

/// One codec entry: its base URL and its candidate locations.
#[derive(Debug)]
pub struct CodecNode {
    pub base_url: String,
    pub url_info: Vec<UrlInfo>,
}

/// One container-format entry of a stream descriptor.
#[derive(Debug)]
pub struct FormatNode {
    pub codec: Vec<CodecNode>,
}

/// One stream descriptor: a transport family and its format entries.
#[derive(Debug)]
pub struct StreamDescriptor {
    pub format: Vec<FormatNode>,
}

/// Model of one candidate location.
pub ghost struct UrlInfoModel {
    pub host: Seq<char>,
    pub extra: Seq<char>,
}

/// Model of one codec entry.
pub ghost struct CodecModel {
    pub base_url: Seq<char>,
    pub url_info: Seq<UrlInfoModel>,
}

/// Model of one format entry.
pub ghost struct FormatModel {
    pub codec: Seq<CodecModel>,
}

/// Model of one stream descriptor.
pub ghost struct StreamModel {
    pub format: Seq<FormatModel>,
}

/// Models of a sequence of locations, element for element.
pub open spec fn infos_view(s: Seq<UrlInfo>) -> Seq<UrlInfoModel> {
    s.map_values(|u: UrlInfo| u@)
}

/// Models of a sequence of codec entries, element for element.
pub open spec fn codecs_view(s: Seq<CodecNode>) -> Seq<CodecModel> {
    s.map_values(|c: CodecNode| c@)
}

/// Models of a sequence of format entries, element for element.
pub open spec fn formats_view(s: Seq<FormatNode>) -> Seq<FormatModel> {
    s.map_values(|f: FormatNode| f@)
}

/// Models of a sequence of stream descriptors, element for element.
pub open spec fn streams_view(s: Seq<StreamDescriptor>) -> Seq<StreamModel> {
    s.map_values(|d: StreamDescriptor| d@)
}

impl View for UrlInfo {
    type V = UrlInfoModel;

    open spec fn view(&self) -> UrlInfoModel {
        UrlInfoModel { host: self.host@, extra: self.extra@ }
    }
}

impl View for CodecNode {
    type V = CodecModel;

    open spec fn view(&self) -> CodecModel {
        CodecModel { base_url: self.base_url@, url_info: infos_view(self.url_info@) }
    }
}

impl View for FormatNode {
    type V = FormatModel;

    open spec fn view(&self) -> FormatModel {
        FormatModel { codec: codecs_view(self.codec@) }
    }
}

impl View for StreamDescriptor {
    type V = StreamModel;

    open spec fn view(&self) -> StreamModel {
        StreamModel { format: formats_view(self.format@) }
    }
}

/// The full URL of one leaf: `host ++ base_url ++ extra`, each component
/// stripped of surrounding quote characters.
pub open spec fn leaf_url(host: Seq<char>, base: Seq<char>, extra: Seq<char>) -> Seq<char> {
    spec_strip_quotes(host) + spec_strip_quotes(base) + spec_strip_quotes(extra)
}

/// URLs of a codec's locations, in source order.
pub open spec fn urls_of_infos(infos: Seq<UrlInfo>, base: Seq<char>) -> Seq<Seq<char>>
    decreases infos.len(),
{
    if infos.len() == 0 {
        Seq::empty()
    } else {
        urls_of_infos(infos.drop_last(), base) + seq![
            leaf_url(infos.last().host@, base, infos.last().extra@),
        ]
    }
}

/// URLs of one codec entry.
pub open spec fn urls_of_codec(c: CodecNode) -> Seq<Seq<char>> {
    urls_of_infos(c.url_info@, c.base_url@)
}

/// URLs of a sequence of codec entries, in source order.
pub open spec fn urls_of_codecs(cs: Seq<CodecNode>) -> Seq<Seq<char>>
    decreases cs.len(),
{
    if cs.len() == 0 {
        Seq::empty()
    } else {
        urls_of_codecs(cs.drop_last()) + urls_of_codec(cs.last())
    }
}

/// URLs of one format entry.
pub open spec fn urls_of_format(f: FormatNode) -> Seq<Seq<char>> {
    urls_of_codecs(f.codec@)
}

/// URLs of a sequence of format entries, in source order.
pub open spec fn urls_of_formats(fs: Seq<FormatNode>) -> Seq<Seq<char>>
    decreases fs.len(),
{
    if fs.len() == 0 {
        Seq::empty()
    } else {
        urls_of_formats(fs.drop_last()) + urls_of_format(fs.last())
    }
}

/// URLs of one stream descriptor.
pub open spec fn urls_of_stream(s: StreamDescriptor) -> Seq<Seq<char>> {
    urls_of_formats(s.format@)
}

/// URLs of a whole descriptor list: the flattening of the tree, depth
/// first, left to right.
pub open spec fn spec_flatten(ss: Seq<StreamDescriptor>) -> Seq<Seq<char>>
    decreases ss.len(),
{
    if ss.len() == 0 {
        Seq::empty()
    } else {
        spec_flatten(ss.drop_last()) + urls_of_stream(ss.last())
    }
}

proof fn lemma_urls_of_infos_take_succ(infos: Seq<UrlInfo>, base: Seq<char>, k: int)
    requires
        0 <= k < infos.len(),
    ensures
        urls_of_infos(infos.take(k + 1), base) == urls_of_infos(infos.take(k), base) + seq![
            leaf_url(infos[k].host@, base, infos[k].extra@),
        ],
{
    assert(infos.take(k + 1).drop_last() =~= infos.take(k));
    assert(infos.take(k + 1).last() == infos[k]);
}

proof fn lemma_urls_of_codecs_take_succ(cs: Seq<CodecNode>, k: int)
    requires
        0 <= k < cs.len(),
    ensures
        urls_of_codecs(cs.take(k + 1)) == urls_of_codecs(cs.take(k)) + urls_of_codec(cs[k]),
{
    assert(cs.take(k + 1).drop_last() =~= cs.take(k));
    assert(cs.take(k + 1).last() == cs[k]);
}

proof fn lemma_urls_of_formats_take_succ(fs: Seq<FormatNode>, k: int)
    requires
        0 <= k < fs.len(),
    ensures
        urls_of_formats(fs.take(k + 1)) == urls_of_formats(fs.take(k)) + urls_of_format(fs[k]),
{
    assert(fs.take(k + 1).drop_last() =~= fs.take(k));
    assert(fs.take(k + 1).last() == fs[k]);
}

proof fn lemma_spec_flatten_take_succ(ss: Seq<StreamDescriptor>, k: int)
    requires
        0 <= k < ss.len(),
    ensures
        spec_flatten(ss.take(k + 1)) == spec_flatten(ss.take(k)) + urls_of_stream(ss[k]),
{
    assert(ss.take(k + 1).drop_last() =~= ss.take(k));
    assert(ss.take(k + 1).last() == ss[k]);
}

proof fn lemma_urls_of_infos_len(infos: Seq<UrlInfo>, base: Seq<char>)
    ensures
        urls_of_infos(infos, base).len() == infos.len(),
    decreases infos.len(),
{
    if infos.len() > 0 {
        lemma_urls_of_infos_len(infos.drop_last(), base);
    }
}

proof fn lemma_urls_of_codecs_len_uniform(cs: Seq<CodecNode>, i: int)
    requires
        forall|b: int| 0 <= b < cs.len() ==> #[trigger] cs[b].url_info@.len() == i,
    ensures
        urls_of_codecs(cs).len() == cs.len() * i,
    decreases cs.len(),
{
    if cs.len() == 0 {
        assert(cs.len() * i == 0) by (nonlinear_arith)
            requires cs.len() == 0;
    } else {
        assert(forall|b: int| 0 <= b < cs.len() - 1 ==> cs.drop_last()[b] == cs[b]);
        lemma_urls_of_codecs_len_uniform(cs.drop_last(), i);
        lemma_urls_of_infos_len(cs.last().url_info@, cs.last().base_url@);
        assert((cs.len() - 1) * i + i == cs.len() * i) by (nonlinear_arith);
    }
}

proof fn lemma_urls_of_formats_len_uniform(fs: Seq<FormatNode>, c: int, i: int)
    requires
        forall|a: int| 0 <= a < fs.len() ==> #[trigger] fs[a].codec@.len() == c,
        forall|a: int, b: int|
            0 <= a < fs.len() && 0 <= b < c ==> #[trigger] fs[a].codec@[b].url_info@.len() == i,
    ensures
        urls_of_formats(fs).len() == fs.len() * (c * i),
    decreases fs.len(),
{
    if fs.len() == 0 {
        assert(fs.len() * (c * i) == 0) by (nonlinear_arith)
            requires fs.len() == 0;
    } else {
        assert(forall|a: int| 0 <= a < fs.len() - 1 ==> fs.drop_last()[a] == fs[a]);
        lemma_urls_of_formats_len_uniform(fs.drop_last(), c, i);
        lemma_urls_of_codecs_len_uniform(fs.last().codec@, i);
        assert((fs.len() - 1) * (c * i) + c * i == fs.len() * (c * i)) by (nonlinear_arith);
    }
}

/// Flattening is exhaustive: a descriptor with `f` format entries, each
/// holding `c` codecs, each holding `i` locations, flattens to exactly
/// `f * c * i` URLs.
pub proof fn lemma_flatten_count(d: StreamDescriptor, f: int, c: int, i: int)
    requires
        d.format@.len() == f,
        forall|a: int| 0 <= a < f ==> #[trigger] d.format@[a].codec@.len() == c,
        forall|a: int, b: int|
            0 <= a < f && 0 <= b < c ==> #[trigger] d.format@[a].codec@[b].url_info@.len() == i,
    ensures
        urls_of_stream(d).len() == f * c * i,
{
    lemma_urls_of_formats_len_uniform(d.format@, c, i);
    assert(f * (c * i) == f * c * i) by (nonlinear_arith);
}

/// Flatten an ordered list of stream descriptors into the ordered list of
/// every full URL it holds: one URL per codec x url_info combination, in
/// source order at every nesting level.
pub fn flatten_streams(streams: &Vec<StreamDescriptor>) -> (r: Vec<String>)
    ensures
        r.deep_view() == spec_flatten(streams@),
{
    let mut out: Vec<String> = Vec::new();
    proof {
        assert(out.deep_view() =~= spec_flatten(streams@.take(0)));
    }
    let mut i: usize = 0;
    while i < streams.len()
        invariant
            0 <= i <= streams@.len(),
            out.deep_view() == spec_flatten(streams@.take(i as int)),
        decreases streams@.len() - i,
    {
        let stream = &streams[i];
        let ghost fs = stream.format@;
        let mut j: usize = 0;
        while j < stream.format.len()
            invariant
                0 <= j <= fs.len(),
                fs == streams@[i as int].format@,
                0 <= i < streams@.len(),
                stream == streams@[i as int],
                out.deep_view() == spec_flatten(streams@.take(i as int)) + urls_of_formats(
                    fs.take(j as int),
                ),
            decreases fs.len() - j,
        {
            let format = &stream.format[j];
            let ghost cs = format.codec@;
            let mut k: usize = 0;
            while k < format.codec.len()
                invariant
                    0 <= k <= cs.len(),
                    cs == fs[j as int].codec@,
                    0 <= j < fs.len(),
                    fs == streams@[i as int].format@,
                    0 <= i < streams@.len(),
                    stream == streams@[i as int],
                    format == fs[j as int],
                    out.deep_view() == spec_flatten(streams@.take(i as int)) + urls_of_formats(
                        fs.take(j as int),
                    ) + urls_of_codecs(cs.take(k as int)),
                decreases cs.len() - k,
            {
                let codec = &format.codec[k];
                let ghost infos = codec.url_info@;
                let ghost base = codec.base_url@;
                let mut m: usize = 0;
                while m < codec.url_info.len()
                    invariant
                        0 <= m <= infos.len(),
                        infos == cs[k as int].url_info@,
                        base == cs[k as int].base_url@,
                        0 <= k < cs.len(),
                        cs == fs[j as int].codec@,
                        0 <= j < fs.len(),
                        fs == streams@[i as int].format@,
                        0 <= i < streams@.len(),
                        stream == streams@[i as int],
                        format == fs[j as int],
                        codec == cs[k as int],
                        out.deep_view() == spec_flatten(streams@.take(i as int)) + urls_of_formats(
                            fs.take(j as int),
                        ) + urls_of_codecs(cs.take(k as int)) + urls_of_infos(
                            infos.take(m as int),
                            base,
                        ),
                    decreases infos.len() - m,
                {
                    let info = &codec.url_info[m];
                    let mut url = strip_quotes(info.host.as_str());
                    let base_stripped = strip_quotes(codec.base_url.as_str());
                    url.append(base_stripped.as_str());
                    let extra_stripped = strip_quotes(info.extra.as_str());
                    url.append(extra_stripped.as_str());
                    proof {
                        assert(url@ == leaf_url(infos[m as int].host@, base, infos[m as int].extra@));
                    }
                    let ghost old_deep = out.deep_view();
                    out.push(url);
                    proof {
                        assert(out.deep_view() =~= old_deep.push(url@));
                        lemma_urls_of_infos_take_succ(infos, base, m as int);
                        assert(out.deep_view() =~= spec_flatten(streams@.take(i as int))
                            + urls_of_formats(fs.take(j as int)) + urls_of_codecs(
                            cs.take(k as int),
                        ) + urls_of_infos(infos.take(m as int + 1), base));
                    }
                    m = m + 1;
                }
                proof {
                    assert(infos.take(infos.len() as int) =~= infos);
                    lemma_urls_of_codecs_take_succ(cs, k as int);
                    assert(spec_flatten(streams@.take(i as int)) + urls_of_formats(
                        fs.take(j as int),
                    ) + urls_of_codecs(cs.take(k as int + 1)) =~= spec_flatten(
                        streams@.take(i as int),
                    ) + urls_of_formats(fs.take(j as int)) + urls_of_codecs(cs.take(k as int))
                        + urls_of_codec(cs[k as int]));
                }
                k = k + 1;
            }
            proof {
                assert(cs.take(cs.len() as int) =~= cs);
                lemma_urls_of_formats_take_succ(fs, j as int);
                assert(spec_flatten(streams@.take(i as int)) + urls_of_formats(
                    fs.take(j as int + 1),
                ) =~= spec_flatten(streams@.take(i as int)) + urls_of_formats(fs.take(j as int))
                    + urls_of_format(fs[j as int]));
            }
            j = j + 1;
        }
        proof {
            assert(fs.take(fs.len() as int) =~= fs);
            lemma_spec_flatten_take_succ(streams@, i as int);
            assert(spec_flatten(streams@.take(i as int + 1)) =~= spec_flatten(
                streams@.take(i as int),
            ) + urls_of_stream(streams@[i as int]));
        }
        i = i + 1;
    }
    proof {
        assert(streams@.take(streams@.len() as int) =~= streams@);
    }
    out
}

/// Keep, in order, exactly the URLs that contain `token` as a substring.
pub open spec fn spec_filter_urls(urls: Seq<Seq<char>>, token: Seq<char>) -> Seq<Seq<char>>
    decreases urls.len(),
{
    if urls.len() == 0 {
        Seq::empty()
    } else {
        spec_filter_urls(urls.drop_last(), token) + (if spec_contains(urls.last(), token) {
            seq![urls.last()]
        } else {
            Seq::empty()
        })
    }
}

proof fn lemma_spec_filter_urls_take_succ(urls: Seq<Seq<char>>, token: Seq<char>, k: int)
    requires
        0 <= k < urls.len(),
    ensures
        spec_filter_urls(urls.take(k + 1), token) == spec_filter_urls(urls.take(k), token) + (
        if spec_contains(urls[k], token) {
            seq![urls[k]]
        } else {
            Seq::<Seq<char>>::empty()
        }),
{
    assert(urls.take(k + 1).drop_last() =~= urls.take(k));
    assert(urls.take(k + 1).last() == urls[k]);
}

/// Every URL the filter keeps contains the token.
pub proof fn lemma_filtered_urls_match(urls: Seq<Seq<char>>, token: Seq<char>)
    ensures
        forall|k: int|
            0 <= k < spec_filter_urls(urls, token).len() ==> spec_contains(
                #[trigger] spec_filter_urls(urls, token)[k],
                token,
            ),
    decreases urls.len(),
{
    if urls.len() > 0 {
        lemma_filtered_urls_match(urls.drop_last(), token);
        let f = spec_filter_urls(urls, token);
        let fd = spec_filter_urls(urls.drop_last(), token);
        assert forall|k: int| 0 <= k < f.len() implies spec_contains(f[k], token) by {
            if k < fd.len() {
                assert(f[k] == fd[k]);
            } else {
                assert(spec_contains(urls.last(), token));
                assert(f[k] == urls.last());
            }
        }
    }
}

/// Keep, in order, exactly the URLs that contain the format's token as a
/// substring; an empty list filters to an empty list.
pub fn filter_urls(urls: &Vec<String>, format: &Format) -> (r: Vec<String>)
    ensures
        r.deep_view() == spec_filter_urls(urls.deep_view(), format.spec_value()),
{
    let token = format.value();
    let mut out: Vec<String> = Vec::new();
    proof {
        assert(out.deep_view() =~= spec_filter_urls(urls.deep_view().take(0), format.spec_value()));
    }
    let mut i: usize = 0;
    while i < urls.len()
        invariant
            0 <= i <= urls@.len(),
            token@ == format.spec_value(),
            urls.deep_view().len() == urls@.len(),
            out.deep_view() == spec_filter_urls(
                urls.deep_view().take(i as int),
                format.spec_value(),
            ),
        decreases urls@.len() - i,
    {
        let url = &urls[i];
        proof {
            assert(urls.deep_view()[i as int] == urls@[i as int]@);
        }
        let ghost old_deep = out.deep_view();
        if contains_substr(url.as_str(), token.as_str()) {
            out.push(url.clone());
            proof {
                assert(out.deep_view() =~= old_deep.push(url@));
            }
        }
        proof {
            lemma_spec_filter_urls_take_succ(urls.deep_view(), format.spec_value(), i as int);
            assert(out.deep_view() =~= spec_filter_urls(
                urls.deep_view().take(i as int + 1),
                format.spec_value(),
            ));
        }
        i = i + 1;
    }
    proof {
        assert(urls.deep_view().take(urls.deep_view().len() as int) =~= urls.deep_view());
    }
    out
}

} // verus!
