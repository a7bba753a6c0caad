//! Wire-packet inspection: rendering a framed map for logs, extracting the
//! identifier list used for dispatch, and the byte-string hash behind the
//! server-stream routing rule.

use std::hash::Hasher;

use vstd::prelude::*;
use vstd::std_specs::hash::DefaultHasherAdditionalSpecFns;

use crate::tnetstring::{
    spec_frame, spec_list_clean, spec_list_items, spec_map_clean, spec_map_items, Frame,
    FrameType, GhostFrame, MapIterator, ParseError,
};

verus! {

/// Longest metadata rendering kept in a log line.
pub const LOG_METADATA_MAX: usize = 1000;

/// Longest content rendering kept in a log line.
pub const LOG_CONTENT_MAX: usize = 1000;

pub const BSPACE: u8 = 32;

pub const BQUOTE: u8 = 34;

pub const BDOT: u8 = 46;

pub const BT: u8 = 84;

pub open spec fn type_key() -> Seq<u8> {
    seq![116u8, 121u8, 112u8, 101u8]
}

pub open spec fn condition_key() -> Seq<u8> {
    seq![99u8, 111u8, 110u8, 100u8, 105u8, 116u8, 105u8, 111u8, 110u8]
}

pub open spec fn error_val() -> Seq<u8> {
    seq![101u8, 114u8, 114u8, 111u8, 114u8]
}

pub open spec fn rejected_val() -> Seq<u8> {
    seq![114u8, 101u8, 106u8, 101u8, 99u8, 116u8, 101u8, 100u8]
}

pub open spec fn id_key() -> Seq<u8> {
    seq![105u8, 100u8]
}

pub open spec fn body_key() -> Seq<u8> {
    seq![98u8, 111u8, 100u8, 121u8]
}

/// Each byte read as the character with the same code.
pub open spec fn chars_of(bytes: Seq<u8>) -> Seq<char> {
    bytes.map_values(|b: u8| b as char)
}

pub open spec fn opt_slice_view(o: Option<&[u8]>) -> Option<Seq<u8>> {
    match o {
        Some(s) => Some(s@),
        None => None,
    }
}

/// Byte-for-byte equality of two slices.
pub fn bytes_eq(a: &[u8], b: &[u8]) -> (r: bool)
    ensures
        r == (a@ == b@),
{
    if a.len() != b.len() {
        return false;
    }
    let n = a.len();
    let mut i: usize = 0;
    while i < n
        invariant
            0 <= i <= n,
            n == a@.len(),
            n == b@.len(),
            forall|j: int| 0 <= j < i ==> a@[j] == b@[j],
        decreases n - i,
    {
        if a[i] != b[i] {
            return false;
        }
        i = i + 1;
    }
    proof {
        assert(a@ =~= b@);
    }
    true
}

/// Appends every byte of `b` to `out`.
pub fn push_all(out: &mut Vec<u8>, b: &[u8])
    ensures
        final(out)@ == old(out)@ + b@,
{
    let n = b.len();
    let mut i: usize = 0;
    while i < n
        invariant
            0 <= i <= n,
            n == b@.len(),
            out@ == old(out)@ + b@.take(i as int),
        decreases n - i,
    {
        out.push(b[i]);
        i = i + 1;
        proof {
            assert(old(out)@ + b@.take(i as int) =~= (old(out)@ + b@.take(i - 1)).push(
                b@[i - 1],
            ));
        }
    }
    proof {
        assert(b@.take(n as int) =~= b@);
    }
}

/// Relies on String::push: appends exactly the one character.
#[verifier::external_body]
fn push_char(s: &mut String, c: char)
    ensures
        final(s)@ == old(s)@.push(c),
{
    s.push(c);
}

/// Builds the string whose characters are the bytes of `v`, code for code.
pub fn bytes_to_string(v: &[u8]) -> (r: String)
    ensures
        r@ == chars_of(v@),
{
    let mut out = String::new();
    let n = v.len();
    let mut i: usize = 0;
    while i < n
        invariant
            0 <= i <= n,
            n == v@.len(),
            out@ == chars_of(v@.take(i as int)),
        decreases n - i,
    {
        let c = v[i] as char;
        push_char(&mut out, c);
        i = i + 1;
        proof {
            assert(chars_of(v@.take(i as int)) =~= chars_of(v@.take(i - 1)).push(
                v@[i - 1] as char,
            ));
        }
    }
    proof {
        assert(v@.take(n as int) =~= v@);
    }
    out
}

/// How a frame is rendered inside a log line: text quoted, numbers and
/// booleans as their payload, null spelled out, and nested payloads kept as
/// their raw framing inside brackets.
pub open spec fn render_frame(t: FrameType, payload: Seq<u8>) -> Seq<u8> {
    match t {
        FrameType::Text => seq![BQUOTE] + payload + seq![BQUOTE],
        FrameType::Int => payload,
        FrameType::Bool => payload,
        FrameType::Null => seq![110u8, 117u8, 108u8, 108u8],
        FrameType::Dict => seq![123u8] + payload + seq![125u8],
        FrameType::List => seq![91u8] + payload + seq![93u8],
    }
}

/// Appends the rendering of `f` to `out`.
pub fn render_frame_into(out: &mut Vec<u8>, f: &Frame<'_>)
    ensures
        final(out)@ == old(out)@ + render_frame(f.ftype, f.data@),
{
    match f.ftype {
        FrameType::Text => {
            out.push(BQUOTE);
            push_all(out, f.data);
            out.push(BQUOTE);
            proof {
                assert(out@ =~= old(out)@ + render_frame(f.ftype, f.data@));
            }
        },
        FrameType::Int => {
            push_all(out, f.data);
        },
        FrameType::Bool => {
            push_all(out, f.data);
        },
        FrameType::Null => {
            out.push(110);
            out.push(117);
            out.push(108);
            out.push(108);
            proof {
                assert(out@ =~= old(out)@ + render_frame(f.ftype, f.data@));
            }
        },
        FrameType::Dict => {
            out.push(123);
            push_all(out, f.data);
            out.push(125);
            proof {
                assert(out@ =~= old(out)@ + render_frame(f.ftype, f.data@));
            }
        },
        FrameType::List => {
            out.push(91);
            push_all(out, f.data);
            out.push(93);
            proof {
                assert(out@ =~= old(out)@ + render_frame(f.ftype, f.data@));
            }
        },
    }
}

/// The metadata body: every key/value pair except the content field,
/// separated by commas.
pub open spec fn render_meta_items(
    items: Seq<(Seq<u8>, GhostFrame)>,
    field: Option<Seq<u8>>,
    first: bool,
) -> Seq<u8>
    decreases items.len(),
{
    if items.len() == 0 {
        Seq::empty()
    } else {
        let kv = items[0];
        if field matches Some(f) && kv.0 == f {
            render_meta_items(items.skip(1), field, first)
        } else {
            (if first {
                Seq::<u8>::empty()
            } else {
                seq![44u8, BSPACE]
            }) + seq![BQUOTE] + kv.0 + seq![BQUOTE, 58u8, BSPACE] + render_frame(
                kv.1.ftype,
                kv.1.payload,
            ) + render_meta_items(items.skip(1), field, false)
        }
    }
}

/// The whole metadata rendering: braces around the body, with the closing
/// brace left off when the map is malformed and rendering stopped short.
pub open spec fn meta_render_full(s: Seq<u8>, field: Option<Seq<u8>>) -> Seq<u8> {
    seq![123u8, BSPACE] + render_meta_items(spec_map_items(s, 0), field, true) + (
    if spec_map_clean(s, 0) {
        seq![BSPACE, 125u8]
    } else {
        Seq::<u8>::empty()
    })
}

/// A framed map payload paired with the key whose value is logged as
/// content rather than metadata.
pub struct Packet<'a> {
    pub map_frame: Frame<'a>,
    pub content_field: Option<&'a [u8]>,
}

impl Packet<'_> {
    /// Appends the metadata rendering of the map to `out`, skipping the
    /// content field, and stopping short (without the closing brace) at the
    /// first malformed pair.
    #[verifier::rlimit(100)]
    pub fn fmt_metadata(&self, out: &mut Vec<u8>)
        ensures
            final(out)@ == old(out)@ + meta_render_full(
                self.map_frame.data@,
                opt_slice_view(self.content_field),
            ),
    {
        let ghost s = self.map_frame.data@;
        let ghost fieldv = opt_slice_view(self.content_field);
        out.push(123);
        out.push(BSPACE);
        let mut it = MapIterator::new(self.map_frame.data);
        let mut first: bool = true;
        proof {
            assert(out@ =~= old(out)@ + seq![123u8, BSPACE]);
        }
        loop
            invariant
                it.wf(),
                it.data@ == s,
                s == self.map_frame.data@,
                fieldv == opt_slice_view(self.content_field),
                out@ + render_meta_items(it.remaining(), fieldv, first) == old(out)@ + seq![
                    123u8,
                    BSPACE,
                ] + render_meta_items(spec_map_items(s, 0), fieldv, true),
                spec_map_clean(s, 0) <==> it.clean_from_here(),
            decreases it.remaining().len(),
        {
            let ghost pre_rem = it.remaining();
            match it.next() {
                None => {
                    out.push(BSPACE);
                    out.push(125);
                    proof {
                        assert(render_meta_items(pre_rem, fieldv, first) =~= Seq::<u8>::empty());
                        assert(out@ =~= old(out)@ + meta_render_full(s, fieldv));
                    }
                    return ;
                },
                Some(Err(_)) => {
                    proof {
                        assert(render_meta_items(pre_rem, fieldv, first) =~= Seq::<u8>::empty());
                        assert(out@ =~= old(out)@ + meta_render_full(s, fieldv));
                    }
                    return ;
                },
                Some(Ok(item)) => {
                    let skip_this = match self.content_field {
                        Some(field) => bytes_eq(item.key, field),
                        None => false,
                    };
                    proof {
                        assert(pre_rem.skip(1) == it.remaining());
                    }
                    if !skip_this {
                        if !first {
                            out.push(44);
                            out.push(BSPACE);
                        }
                        out.push(BQUOTE);
                        push_all(out, item.key);
                        out.push(BQUOTE);
                        out.push(58);
                        out.push(BSPACE);
                        render_frame_into(out, &item.value);
                        proof {
                            assert(render_meta_items(pre_rem, fieldv, first) =~= (
                            if first {
                                Seq::<u8>::empty()
                            } else {
                                seq![44u8, BSPACE]
                            }) + seq![BQUOTE] + pre_rem[0].0 + seq![BQUOTE, 58u8, BSPACE]
                                + render_frame(pre_rem[0].1.ftype, pre_rem[0].1.payload)
                                + render_meta_items(pre_rem.skip(1), fieldv, false));
                        }
                        first = false;
                    }
                },
            }
        }
    }
    /// Appends the content rendering to `out` and reports the content
    /// payload length, when the packet is a data packet (no type) or a
    /// rejection; otherwise leaves `out` alone.
    pub fn fmt_content(&self, out: &mut Vec<u8>) -> (r: Option<usize>)
        ensures
            self.content_field is None ==> r is None && final(out)@ == old(out)@,
            self.content_field matches Some(field) ==> (match content_result(
                self.map_frame.data@,
                field@,
            ) {
                None => r is None && final(out)@ == old(out)@,
                Some(pair) => r matches Some(c) && c as int == pair.1 && final(out)@ == old(out)@
                    + pair.0,
            }),
    {
        let field = match self.content_field {
            Some(f) => f,
            None => {
                return None;
            },
        };
        let ghost s = self.map_frame.data@;
        let tkey: Vec<u8> = vec![116u8, 121u8, 112u8, 101u8];
        let ckey: Vec<u8> = vec![99u8, 111u8, 110u8, 100u8, 105u8, 116u8, 105u8, 111u8, 110u8];
        let ekey: Vec<u8> = vec![101u8, 114u8, 114u8, 111u8, 114u8];
        let rkey: Vec<u8> = vec![114u8, 101u8, 106u8, 101u8, 99u8, 116u8, 101u8, 100u8];
        let empty_v: Vec<u8> = Vec::new();
        let mut ptype_s: &[u8] = empty_v.as_slice();
        let mut cond_s: Option<&[u8]> = None;
        let mut content_f: Option<Frame> = None;
        let mut it = MapIterator::new(self.map_frame.data);
        loop
            invariant
                it.wf(),
                it.data@ == s,
                s == self.map_frame.data@,
                self.content_field matches Some(f) && f@ == field@,
                tkey@ == type_key(),
                ckey@ == condition_key(),
                ekey@ == error_val(),
                rkey@ == rejected_val(),
                out@ == old(out)@,
                scan_content(spec_map_items(s, 0), field@, init_scan()) == scan_content(
                    it.remaining(),
                    field@,
                    ContentScan {
                        ptype: ptype_s@,
                        condition: opt_slice_view(cond_s),
                        content: opt_frame_view(content_f),
                    },
                ),
                spec_map_clean(s, 0) <==> it.clean_from_here(),
            decreases it.remaining().len(),
        {
            let ghost pre_rem = it.remaining();
            match it.next() {
                None => {
                    let accepted = ptype_s.len() == 0 || (bytes_eq(ptype_s, ekey.as_slice())
                        && (match cond_s {
                        Some(c) => bytes_eq(c, rkey.as_slice()),
                        None => false,
                    }));
                    if !accepted {
                        return None;
                    }
                    match content_f {
                        Some(fr) => {
                            render_frame_into(out, &fr);
                            return Some(fr.data.len());
                        },
                        None => {
                            return Some(0);
                        },
                    }
                },
                Some(Err(_)) => {
                    return None;
                },
                Some(Ok(item)) => {
                    let is_type = bytes_eq(item.key, tkey.as_slice());
                    let is_cond = bytes_eq(item.key, ckey.as_slice());
                    if is_type && !(item.value.ftype == FrameType::Text) {
                        return None;
                    }
                    if is_cond && !(item.value.ftype == FrameType::Text) {
                        return None;
                    }
                    if is_type {
                        ptype_s = item.value.data;
                    }
                    if is_cond {
                        cond_s = Some(item.value.data);
                    }
                    if bytes_eq(item.key, field) {
                        content_f = Some(item.value);
                    }
                    proof {
                        assert(pre_rem.skip(1) == it.remaining());
                    }
                },
            }
        }
    }

    /// The full log rendering: trimmed metadata, then, for data packets and
    /// rejections, the content length and trimmed content.
    pub fn fmt(&self) -> (r: Vec<u8>)
        ensures
            r@ == packet_fmt_spec(self.map_frame.data@, opt_slice_view(self.content_field)),
    {
        let mut meta: Vec<u8> = Vec::new();
        self.fmt_metadata(&mut meta);
        let mut meta = trim_for_log(meta, LOG_METADATA_MAX);
        if self.content_field.is_some() {
            let mut content: Vec<u8> = Vec::new();
            match self.fmt_content(&mut content) {
                Some(clen) => {
                    meta.push(BSPACE);
                    fmt_dec(&mut meta, clen);
                    meta.push(BSPACE);
                    let content = trim_for_log(content, LOG_CONTENT_MAX);
                    push_all(&mut meta, content.as_slice());
                    proof {
                        assert(meta@ =~= packet_fmt_spec(
                            self.map_frame.data@,
                            opt_slice_view(self.content_field),
                        ));
                    }
                    return meta;
                },
                None => {
                    return meta;
                },
            }
        }
        meta
    }
}

/// The running state while scanning a map for its type, condition, and
/// content fields.
pub ghost struct ContentScan {
    pub ptype: Seq<u8>,
    pub condition: Option<Seq<u8>>,
    pub content: Option<(FrameType, Seq<u8>)>,
}

pub open spec fn init_scan() -> ContentScan {
    ContentScan { ptype: Seq::empty(), condition: None, content: None }
}

pub open spec fn opt_frame_view<'a>(o: Option<Frame<'a>>) -> Option<(FrameType, Seq<u8>)> {
    match o {
        Some(f) => Some((f.ftype, f.data@)),
        None => None,
    }
}

/// Folds the scan state over the map's pairs; a type or condition whose
/// value is not text aborts the scan.
pub open spec fn scan_content(
    items: Seq<(Seq<u8>, GhostFrame)>,
    field: Seq<u8>,
    st: ContentScan,
) -> Option<ContentScan>
    decreases items.len(),
{
    if items.len() == 0 {
        Some(st)
    } else {
        let kv = items[0];
        if kv.0 == type_key() && kv.1.ftype != FrameType::Text {
            None
        } else if kv.0 == condition_key() && kv.1.ftype != FrameType::Text {
            None
        } else {
            scan_content(
                items.skip(1),
                field,
                ContentScan {
                    ptype: if kv.0 == type_key() {
                        kv.1.payload
                    } else {
                        st.ptype
                    },
                    condition: if kv.0 == condition_key() {
                        Some(kv.1.payload)
                    } else {
                        st.condition
                    },
                    content: if kv.0 == field {
                        Some((kv.1.ftype, kv.1.payload))
                    } else {
                        st.content
                    },
                },
            )
        }
    }
}

/// Content is logged only for data packets (empty type) and rejections.
pub open spec fn content_accepted(st: ContentScan) -> bool {
    st.ptype.len() == 0 || (st.ptype == error_val() && st.condition == Some(rejected_val()))
}

/// What `fmt_content` appends and reports: the rendered content and its
/// payload length, when the map is clean, the scan survives, and the packet
/// kind calls for content.
pub open spec fn content_result(s: Seq<u8>, field: Seq<u8>) -> Option<(Seq<u8>, int)> {
    if !spec_map_clean(s, 0) {
        None
    } else {
        match scan_content(spec_map_items(s, 0), field, init_scan()) {
            None => None,
            Some(st) => if content_accepted(st) {
                match st.content {
                    Some(c) => Some((render_frame(c.0, c.1), c.1.len() as int)),
                    None => Some((Seq::empty(), 0)),
                }
            } else {
                None
            },
        }
    }
}

/// The decimal rendering of a non-negative number.
pub open spec fn spec_dec(n: int) -> Seq<u8>
    decreases n,
{
    if n < 0 {
        Seq::empty()
    } else if n < 10 {
        seq![(48 + n) as u8]
    } else {
        spec_dec(n / 10) + seq![(48 + n % 10) as u8]
    }
}

/// Appends the decimal rendering of `n` to `out`.
pub fn fmt_dec(out: &mut Vec<u8>, n: usize)
    ensures
        final(out)@ == old(out)@ + spec_dec(n as int),
    decreases n,
{
    if n >= 10 {
        fmt_dec(out, n / 10);
    }
    let d: u8 = (n % 10) as u8;
    out.push(48 + d);
    proof {
        assert(out@ =~= old(out)@ + spec_dec(n as int));
    }
}

pub open spec fn ellipsis() -> Seq<u8> {
    seq![BDOT, BDOT, BDOT]
}

/// A rendering over `max` bytes is cut there and marked with an ellipsis.
pub open spec fn trim_spec(s: Seq<u8>, max: int) -> Seq<u8> {
    if s.len() <= max {
        s
    } else {
        s.take(max) + ellipsis()
    }
}

pub fn trim_for_log(v: Vec<u8>, max: usize) -> (r: Vec<u8>)
    ensures
        r@ == trim_spec(v@, max as int),
{
    let ghost orig = v@;
    let mut v = v;
    if v.len() <= max {
        v
    } else {
        v.truncate(max);
        v.push(BDOT);
        v.push(BDOT);
        v.push(BDOT);
        proof {
            assert(v@ =~= trim_spec(orig, max as int));
        }
        v
    }
}

/// The full log rendering of a packet given its map payload.
pub open spec fn packet_fmt_spec(s: Seq<u8>, field: Option<Seq<u8>>) -> Seq<u8> {
    let meta = trim_spec(meta_render_full(s, field), LOG_METADATA_MAX as int);
    match field {
        None => meta,
        Some(f) => match content_result(s, f) {
            None => meta,
            Some(pair) => meta + seq![BSPACE] + spec_dec(pair.1) + seq![BSPACE] + trim_spec(
                pair.0,
                LOG_CONTENT_MAX as int,
            ),
        },
    }
}

/// The first position of `b` in `s` at or after `i`.
pub open spec fn first_pos(s: Seq<u8>, b: u8, i: int) -> Option<int>
    decreases s.len() - i,
{
    if i < 0 || i >= s.len() {
        None
    } else if s[i] == b {
        Some(i)
    } else {
        first_pos(s, b, i + 1)
    }
}

pub fn find_byte(data: &[u8], b: u8) -> (r: Option<usize>)
    ensures
        r matches Some(p) ==> first_pos(data@, b, 0) == Some(p as int) && p < data@.len()
            && data@[p as int] == b,
        r is None ==> first_pos(data@, b, 0) is None,
{
    let n = data.len();
    let mut i: usize = 0;
    while i < n
        invariant
            0 <= i <= n,
            n == data@.len(),
            first_pos(data@, b, 0) == first_pos(data@, b, i as int),
        decreases n - i,
    {
        if data[i] == b {
            return Some(i);
        }
        i = i + 1;
    }
    None
}

pub open spec fn all_ascii(s: Seq<u8>) -> bool {
    forall|i: int| 0 <= i < s.len() ==> #[trigger] s[i] < 128
}

fn check_ascii(data: &[u8]) -> (r: bool)
    ensures
        r == all_ascii(data@),
{
    let n = data.len();
    let mut i: usize = 0;
    while i < n
        invariant
            0 <= i <= n,
            n == data@.len(),
            forall|j: int| 0 <= j < i ==> #[trigger] data@[j] < 128,
        decreases n - i,
    {
        if data[i] >= 128 {
            return false;
        }
        i = i + 1;
    }
    true
}

/// What `packet_to_string` hands back for a given wire frame.
pub open spec fn packet_to_string_spec(data: Seq<u8>) -> Seq<char> {
    if data.len() == 0 {
        "<packet is 0 bytes>"@
    } else if data[0] == BT {
        match spec_frame(data.skip(1)) {
            None => "<parse failed>"@,
            Some(f) => if f.ftype != FrameType::Dict {
                "<not a map>"@
            } else {
                chars_of(packet_fmt_spec(f.payload, Some(body_key())))
            },
        }
    } else {
        match first_pos(data, BSPACE, 0) {
            None => "<unexpected format>"@,
            Some(pos) => {
                let addr = data.subrange(0, pos);
                if !all_ascii(addr) {
                    "<addr parse failed>"@
                } else if data.len() == pos + 1 {
                    "<payload is 0 bytes>"@
                } else if data[pos + 1] != BT {
                    "<unexpected format>"@
                } else {
                    match spec_frame(data.skip(pos + 2)) {
                        None => "<parse failed>"@,
                        Some(f) => if f.ftype != FrameType::Dict {
                            "<not a map>"@
                        } else {
                            chars_of(
                                addr + seq![BSPACE] + packet_fmt_spec(f.payload, Some(body_key())),
                            )
                        },
                    }
                }
            },
        }
    }
}

/// Renders a wire frame for a trace line: either a bare framed map, or an
/// address, a space, and a framed map.
pub fn packet_to_string(data: &[u8]) -> (r: String)
    ensures
        r@ == packet_to_string_spec(data@),
{
    let len = data.len();
    if len == 0 {
        return "<packet is 0 bytes>".to_owned();
    }
    let bkey: Vec<u8> = vec![98u8, 111u8, 100u8, 121u8];
    proof {
        assert(bkey@ == body_key());
    }
    if data[0] == BT {
        let rest: &[u8] = &data[1..len];
        proof {
            assert(rest@ == data@.skip(1));
        }
        match crate::tnetstring::parse_frame(rest) {
            Err(_) => "<parse failed>".to_owned(),
            Ok((f, _)) => {
                if !(f.ftype == FrameType::Dict) {
                    return "<not a map>".to_owned();
                }
                let p = Packet { map_frame: f, content_field: Some(bkey.as_slice()) };
                let out = p.fmt();
                bytes_to_string(out.as_slice())
            },
        }
    } else {
        let pos = match find_byte(data, BSPACE) {
            Some(p) => p,
            None => {
                return "<unexpected format>".to_owned();
            },
        };
        let addr: &[u8] = &data[0..pos];
        proof {
            assert(addr@ == data@.subrange(0, pos as int));
        }
        if !check_ascii(addr) {
            return "<addr parse failed>".to_owned();
        }
        if len == pos + 1 {
            return "<payload is 0 bytes>".to_owned();
        }
        if data[pos + 1] != BT {
            return "<unexpected format>".to_owned();
        }
        let rest: &[u8] = &data[pos + 2..len];
        proof {
            assert(rest@ == data@.skip(pos + 2));
        }
        match crate::tnetstring::parse_frame(rest) {
            Err(_) => "<parse failed>".to_owned(),
            Ok((f, _)) => {
                if !(f.ftype == FrameType::Dict) {
                    return "<not a map>".to_owned();
                }
                let p = Packet { map_frame: f, content_field: Some(bkey.as_slice()) };
                let fmt_out = p.fmt();
                let mut out: Vec<u8> = Vec::new();
                push_all(&mut out, addr);
                out.push(BSPACE);
                push_all(&mut out, fmt_out.as_slice());
                proof {
                    assert(out@ =~= addr@ + seq![BSPACE] + fmt_out@);
                }
                bytes_to_string(out.as_slice())
            },
        }
    }
}

/// The value of the first `id` key in a map, if any.
pub open spec fn find_first_id(items: Seq<(Seq<u8>, GhostFrame)>) -> Option<GhostFrame>
    decreases items.len(),
{
    if items.len() == 0 {
        None
    } else if items[0].0 == id_key() {
        Some(items[0].1)
    } else {
        find_first_id(items.skip(1))
    }
}

pub open spec fn list_all_text(fs: Seq<GhostFrame>) -> bool {
    forall|i: int| 0 <= i < fs.len() ==> (#[trigger] fs[i]).ftype == FrameType::Text
}

pub open spec fn payloads_of(fs: Seq<GhostFrame>) -> Seq<Seq<u8>> {
    fs.map_values(|g: GhostFrame| g.payload)
}

/// The identifier list of a wire packet: the packet is a framed map behind
/// a leading marker byte, and its `id` key holds either one text value or a
/// list of text values.
pub open spec fn ids_of(data: Seq<u8>) -> Option<Seq<Seq<u8>>> {
    if data.len() == 0 || data[0] != BT {
        None
    } else {
        match spec_frame(data.skip(1)) {
            None => None,
            Some(f) => {
                if f.ftype != FrameType::Dict || !spec_map_clean(f.payload, 0) {
                    None
                } else {
                    match find_first_id(spec_map_items(f.payload, 0)) {
                        None => None,
                        Some(v) => {
                            if v.ftype == FrameType::Text {
                                Some(seq![v.payload])
                            } else if v.ftype == FrameType::List {
                                if spec_list_clean(v.payload, 0) && list_all_text(
                                    spec_list_items(v.payload, 0),
                                ) {
                                    Some(payloads_of(spec_list_items(v.payload, 0)))
                                } else {
                                    None
                                }
                            } else {
                                None
                            }
                        },
                    }
                }
            },
        }
    }
}

/// Extracts the identifier list of a wire packet; any malformed framing,
/// missing `id` key, or non-text identifier is a parse error.
pub fn parse_ids(data: &[u8]) -> (r: Result<Vec<Vec<u8>>, ParseError>)
    ensures
        r is Ok <==> ids_of(data@) is Some,
        r matches Ok(v) ==> v@.map_values(|x: Vec<u8>| x@) == ids_of(data@).unwrap(),
{
    let len = data.len();
    if len == 0 || data[0] != BT {
        return Err(ParseError);
    }
    let rest: &[u8] = &data[1..len];
    proof {
        assert(rest@ == data@.skip(1));
    }
    let f = match crate::tnetstring::parse_frame(rest) {
        Ok((f, _)) => f,
        Err(_) => {
            return Err(ParseError);
        },
    };
    if !(f.ftype == FrameType::Dict) {
        return Err(ParseError);
    }
    let ghost mp = f.data@;
    let ikey: Vec<u8> = vec![105u8, 100u8];
    proof {
        assert(ikey@ == id_key());
    }
    let mut found: Option<Frame> = None;
    let mut it = MapIterator::new(f.data);
    loop
        invariant
            it.wf(),
            it.data@ == mp,
            mp == f.data@,
            ikey@ == id_key(),
            data@.len() > 0 && data@[0] == BT,
            spec_frame(data@.skip(1)) matches Some(g) && g.ftype == FrameType::Dict && g.payload
                == mp,
            spec_map_clean(mp, 0) <==> it.clean_from_here(),
            found is None ==> find_first_id(spec_map_items(mp, 0)) == find_first_id(
                it.remaining(),
            ),
            found matches Some(fr) ==> (find_first_id(spec_map_items(mp, 0)) matches Some(g)
                && g.ftype == fr.ftype && g.payload == fr.data@),
        decreases it.remaining().len(),
    {
        let ghost pre_rem = it.remaining();
        match it.next() {
            Some(Err(_)) => {
                return Err(ParseError);
            },
            Some(Ok(item)) => {
                proof {
                    assert(pre_rem.skip(1) == it.remaining());
                }
                if found.is_none() && bytes_eq(item.key, ikey.as_slice()) {
                    found = Some(item.value);
                }
            },
            None => {
                let fr = match found {
                    Some(fr) => fr,
                    None => {
                        return Err(ParseError);
                    },
                };
                if fr.ftype == FrameType::Text {
                    let mut ids: Vec<Vec<u8>> = Vec::new();
                    ids.push(vstd::slice::slice_to_vec(fr.data));
                    proof {
                        assert(ids@.map_values(|x: Vec<u8>| x@) =~= seq![fr.data@]);
                    }
                    return Ok(ids);
                }
                if !(fr.ftype == FrameType::List) {
                    return Err(ParseError);
                }
                let ghost lp = fr.data@;
                let mut ids: Vec<Vec<u8>> = Vec::new();
                let ghost mut consumed: Seq<GhostFrame> = Seq::empty();
                let mut it2 = crate::tnetstring::FrameIterator::new(fr.data);
                proof {
                    assert(consumed + it2.remaining() =~= spec_list_items(lp, 0));
                    assert(ids@.map_values(|x: Vec<u8>| x@) =~= payloads_of(consumed));
                }
                loop
                    invariant
                        it2.wf(),
                        it2.data@ == lp,
                        lp == fr.data@,
                        data@.len() > 0 && data@[0] == BT,
                        spec_frame(data@.skip(1)) matches Some(g) && g.ftype == FrameType::Dict
                            && g.payload == mp,
                        spec_map_clean(mp, 0),
                        find_first_id(spec_map_items(mp, 0)) matches Some(g) && g.ftype
                            == FrameType::List && g.payload == lp,
                        spec_list_clean(lp, 0) <==> it2.clean_from_here(),
                        spec_list_items(lp, 0) == consumed + it2.remaining(),
                        list_all_text(consumed),
                        ids@.map_values(|x: Vec<u8>| x@) == payloads_of(consumed),
                    decreases it2.remaining().len(),
                {
                    let ghost pre_rem2 = it2.remaining();
                    match it2.next() {
                        None => {
                            proof {
                                assert(consumed =~= spec_list_items(lp, 0));
                            }
                            return Ok(ids);
                        },
                        Some(Err(_)) => {
                            return Err(ParseError);
                        },
                        Some(Ok(el)) => {
                            proof {
                                assert(pre_rem2.skip(1) == it2.remaining());
                            }
                            if !(el.ftype == FrameType::Text) {
                                proof {
                                    let all = spec_list_items(lp, 0);
                                    assert(all[consumed.len() as int] == pre_rem2[0]);
                                    assert(!list_all_text(all));
                                }
                                return Err(ParseError);
                            }
                            ids.push(vstd::slice::slice_to_vec(el.data));
                            proof {
                                let prev = consumed;
                                consumed = consumed.push(pre_rem2[0]);
                                assert(consumed + it2.remaining() =~= spec_list_items(lp, 0));
                                assert(payloads_of(consumed) =~= payloads_of(prev).push(
                                    pre_rem2[0].payload,
                                ));
                                assert(ids@.map_values(|x: Vec<u8>| x@) =~= payloads_of(
                                    consumed,
                                ));
                            }
                        },
                    }
                }
            },
        }
    }
}


/// The hash behind server-stream dispatch, as a function of the bytes fed
/// to the standard hasher in one write.
pub open spec fn hash_of(s: Seq<u8>) -> u64 {
    std::collections::hash_map::DefaultHasher::spec_finish(seq![s])
}

/// Hashes an identifier for consistent-hash dispatch.
pub fn hash(s: &[u8]) -> (r: usize)
    ensures
        r == hash_of(s@) as usize,
{
    let mut state = std::collections::hash_map::DefaultHasher::new();
    state.write(s);
    proof {
        assert(state@ =~= seq![s@]);
    }
    let h = state.finish();
    h as usize
}

} // verus!
