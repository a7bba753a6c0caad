//! Verified parsing of the length-prefixed wire framing used by the hub.
//!
//! A frame is `LEN ':' PAYLOAD TYPE` where `LEN` is a run of ASCII digits
//! giving the byte length of `PAYLOAD`, and `TYPE` is a single byte naming
//! the payload's kind. A map payload is a run of key/value frame pairs,
//! where each key is a text frame.

use vstd::prelude::*;

verus! {

/// The kind of a frame, named by its trailing type byte.
#[derive(Clone, Copy, Debug, PartialEq, Eq, Structural)]
pub enum FrameType {
    Text,
    Int,
    Bool,
    Null,
    Dict,
    List,
}

/// A parsed frame: its kind and its payload bytes.
pub struct Frame<'a> {
    pub ftype: FrameType,
    pub data: &'a [u8],
}

/// A malformed frame or map.
#[derive(Clone, Copy, Debug, PartialEq, Eq, Structural)]
pub struct ParseError;

/// The mathematical image of a frame: kind, payload, and how many bytes of
/// the input it spans.
pub ghost struct GhostFrame {
    pub ftype: FrameType,
    pub payload: Seq<u8>,
    pub total: int,
}

/// Byte values of the framing's punctuation.
pub const B0: u8 = 48;

pub const B9: u8 = 57;

pub const BCOLON: u8 = 58;

pub const BCOMMA: u8 = 44;

pub const BHASH: u8 = 35;

pub const BBANG: u8 = 33;

pub const BTILDE: u8 = 126;

pub const BRBRACE: u8 = 125;

pub const BRBRACK: u8 = 93;

pub open spec fn is_dec_digit(b: u8) -> bool {
    B0 <= b && b <= B9
}

/// The index of the first non-digit byte at or after `i`.
pub open spec fn digits_end(s: Seq<u8>, i: int) -> int
    decreases s.len() - i,
{
    if i < 0 || i >= s.len() {
        i
    } else if !is_dec_digit(s[i]) {
        i
    } else {
        digits_end(s, i + 1)
    }
}

/// The value of the decimal digit run `s[i..j]`.
pub open spec fn digits_val(s: Seq<u8>, i: int, j: int) -> int
    decreases j - i,
{
    if j <= i {
        0
    } else {
        digits_val(s, i, j - 1) * 10 + (s[j - 1] - B0)
    }
}

/// The frame kind named by a type byte, if any.
pub open spec fn spec_frame_type(b: u8) -> Option<FrameType> {
    if b == BCOMMA {
        Some(FrameType::Text)
    } else if b == BHASH {
        Some(FrameType::Int)
    } else if b == BBANG {
        Some(FrameType::Bool)
    } else if b == BTILDE {
        Some(FrameType::Null)
    } else if b == BRBRACE {
        Some(FrameType::Dict)
    } else if b == BRBRACK {
        Some(FrameType::List)
    } else {
        None
    }
}

/// The frame at the start of `s`, if `s` starts with a well-formed frame.
pub open spec fn spec_frame(s: Seq<u8>) -> Option<GhostFrame> {
    let de = digits_end(s, 0);
    if de == 0 || de >= s.len() || s[de] != BCOLON {
        None
    } else {
        let n = digits_val(s, 0, de);
        let start = de + 1;
        if n < 0 || start + n + 1 > s.len() {
            None
        } else {
            match spec_frame_type(s[start + n]) {
                None => None,
                Some(t) => Some(
                    GhostFrame { ftype: t, payload: s.subrange(start, start + n), total: start + n + 1 },
                ),
            }
        }
    }
}

/// A digit run that continues past `i` with all digits keeps `digits_end`.
pub proof fn lemma_digits_end_exact(s: Seq<u8>, i: int)
    requires
        0 <= i <= s.len(),
        forall|j: int| 0 <= j < i ==> is_dec_digit(s[j]),
        i < s.len() ==> !is_dec_digit(s[i]),
    ensures
        digits_end(s, 0) == i,
{
    lemma_digits_end_step(s, 0, i);
}

proof fn lemma_digits_end_step(s: Seq<u8>, k: int, i: int)
    requires
        0 <= k <= i <= s.len(),
        forall|j: int| k <= j < i ==> is_dec_digit(s[j]),
        i < s.len() ==> !is_dec_digit(s[i]),
    ensures
        digits_end(s, k) == i,
    decreases i - k,
{
    if k < i {
        assert(is_dec_digit(s[k]));
        lemma_digits_end_step(s, k + 1, i);
    }
}

pub fn parse_frame(src: &[u8]) -> (r: Result<(Frame<'_>, usize), ParseError>)
    ensures
        r is Ok <==> spec_frame(src@) is Some,
        r matches Ok(p) ==> spec_frame(src@) == Some(
            GhostFrame { ftype: p.0.ftype, payload: p.0.data@, total: p.1 as int },
        ),
        r matches Ok(p) ==> 3 <= p.1 <= src@.len(),
{
    let len = src.len();
    let ghost sq = src@;
    let mut i: usize = 0;
    let mut acc: usize = 0;
    let mut overflow: bool = false;

    while i < len && src[i] >= B0 && src[i] <= B9
        invariant
            0 <= i <= len,
            len == sq.len(),
            sq == src@,
            forall|j: int| 0 <= j < i ==> is_dec_digit(sq[j]),
            !overflow ==> acc == digits_val(sq, 0, i as int),
            overflow ==> digits_val(sq, 0, i as int) > usize::MAX,
            digits_val(sq, 0, i as int) >= 0,
        decreases len - i,
    {
        let d = src[i];
        let dv = (d - B0) as usize;
        proof {
            assert(digits_val(sq, 0, i + 1) == digits_val(sq, 0, i as int) * 10 + (sq[i as int]
                - B0));
        }
        if !overflow {
            if acc <= (usize::MAX - dv) / 10 {
                proof {
                    let q = (usize::MAX - dv) / 10;
                    assert(usize::MAX - dv == 10 * q + (usize::MAX - dv) % 10) by {
                        vstd::arithmetic::div_mod::lemma_fundamental_div_mod(
                            (usize::MAX - dv) as int,
                            10,
                        );
                    }
                    assert(acc * 10 + dv <= usize::MAX);
                }
                acc = acc * 10 + dv;
            } else {
                proof {
                    let q = (usize::MAX - dv) / 10;
                    assert(usize::MAX - dv == 10 * q + (usize::MAX - dv) % 10) by {
                        vstd::arithmetic::div_mod::lemma_fundamental_div_mod(
                            (usize::MAX - dv) as int,
                            10,
                        );
                    }
                    assert(acc * 10 + dv > usize::MAX);
                }
                overflow = true;
            }
        } else {
            proof {
                assert(digits_val(sq, 0, i + 1) >= digits_val(sq, 0, i as int) * 10);
            }
        }
        i = i + 1;
    }

    proof {
        lemma_digits_end_exact(sq, i as int);
    }

    if i == 0 {
        return Err(ParseError);
    }
    if i >= len || src[i] != BCOLON {
        return Err(ParseError);
    }
    if overflow {
        // the digit run names a payload larger than the input can hold
        proof {
            assert(digits_val(sq, 0, i as int) > sq.len());
        }
        return Err(ParseError);
    }

    let n = acc;
    let start = i + 1;
    if len - start < 1 || n > len - start - 1 {
        return Err(ParseError);
    }

    let tb = src[start + n];
    let ftype = if tb == BCOMMA {
        FrameType::Text
    } else if tb == BHASH {
        FrameType::Int
    } else if tb == BBANG {
        FrameType::Bool
    } else if tb == BTILDE {
        FrameType::Null
    } else if tb == BRBRACE {
        FrameType::Dict
    } else if tb == BRBRACK {
        FrameType::List
    } else {
        return Err(ParseError);
    };

    let payload: &[u8] = &src[start..start + n];
    let total = start + n + 1;
    proof {
        assert(payload@ == sq.subrange(start as int, start + n));
    }
    Ok((Frame { ftype, data: payload }, total))
}

/// The key/value pairs of a map payload, read from `pos` until the end or
/// the first malformed pair, whichever comes first.
pub open spec fn spec_map_items(s: Seq<u8>, pos: int) -> Seq<(Seq<u8>, GhostFrame)>
    decreases s.len() - pos,
{
    if pos < 0 || pos >= s.len() {
        Seq::empty()
    } else {
        match spec_frame(s.skip(pos)) {
            None => Seq::empty(),
            Some(k) => {
                if k.ftype != FrameType::Text || k.total < 1 || pos + k.total > s.len() {
                    Seq::empty()
                } else {
                    match spec_frame(s.skip(pos + k.total)) {
                        None => Seq::empty(),
                        Some(v) => {
                            if v.total < 1 || pos + k.total + v.total > s.len() {
                                Seq::empty()
                            } else {
                                seq![(k.payload, v)] + spec_map_items(s, pos + k.total + v.total)
                            }
                        },
                    }
                }
            },
        }
    }
}

/// Whether a map payload parses cleanly from `pos` to the very end.
pub open spec fn spec_map_clean(s: Seq<u8>, pos: int) -> bool
    decreases s.len() - pos,
{
    if pos < 0 || pos > s.len() {
        false
    } else if pos == s.len() {
        true
    } else {
        match spec_frame(s.skip(pos)) {
            None => false,
            Some(k) => {
                if k.ftype != FrameType::Text || k.total < 1 || pos + k.total > s.len() {
                    false
                } else {
                    match spec_frame(s.skip(pos + k.total)) {
                        None => false,
                        Some(v) => {
                            if v.total < 1 || pos + k.total + v.total > s.len() {
                                false
                            } else {
                                spec_map_clean(s, pos + k.total + v.total)
                            }
                        },
                    }
                }
            },
        }
    }
}

/// The frames of a list payload, read from `pos` until the end or the first
/// malformed frame.
pub open spec fn spec_list_items(s: Seq<u8>, pos: int) -> Seq<GhostFrame>
    decreases s.len() - pos,
{
    if pos < 0 || pos >= s.len() {
        Seq::empty()
    } else {
        match spec_frame(s.skip(pos)) {
            None => Seq::empty(),
            Some(f) => {
                if f.total < 1 || pos + f.total > s.len() {
                    Seq::empty()
                } else {
                    seq![f] + spec_list_items(s, pos + f.total)
                }
            },
        }
    }
}

/// Whether a list payload parses cleanly from `pos` to the very end.
pub open spec fn spec_list_clean(s: Seq<u8>, pos: int) -> bool
    decreases s.len() - pos,
{
    if pos < 0 || pos > s.len() {
        false
    } else if pos == s.len() {
        true
    } else {
        match spec_frame(s.skip(pos)) {
            None => false,
            Some(f) => {
                if f.total < 1 || pos + f.total > s.len() {
                    false
                } else {
                    spec_list_clean(s, pos + f.total)
                }
            },
        }
    }
}

/// One key/value pair handed out while walking a map payload.
pub struct MapItem<'a> {
    pub key: &'a [u8],
    pub value: Frame<'a>,
}

/// A cursor over the key/value pairs of a map payload.
pub struct MapIterator<'a> {
    pub data: &'a [u8],
    pub pos: usize,
}

impl<'a> MapIterator<'a> {
    pub open spec fn wf(&self) -> bool {
        self.pos <= self.data@.len()
    }

    /// The pairs not yet handed out.
    pub open spec fn remaining(&self) -> Seq<(Seq<u8>, GhostFrame)> {
        spec_map_items(self.data@, self.pos as int)
    }

    /// Whether the rest of the payload parses cleanly to the end.
    pub open spec fn clean_from_here(&self) -> bool {
        spec_map_clean(self.data@, self.pos as int)
    }

    pub fn new(data: &'a [u8]) -> (r: Self)
        ensures
            r.data@ == data@,
            r.pos == 0,
            r.wf(),
    {
        MapIterator { data, pos: 0 }
    }

    pub fn next(&mut self) -> (r: Option<Result<MapItem<'a>, ParseError>>)
        requires
            old(self).wf(),
        ensures
            final(self).wf(),
            final(self).data@ == old(self).data@,
            r is None <==> old(self).pos == old(self).data@.len(),
            r is None ==> final(self).pos == old(self).pos,
            (r matches Some(x) && x is Err) <==> (old(self).pos < old(self).data@.len()
                && old(self).remaining().len() == 0),
            r matches Some(Err(_)) ==> !old(self).clean_from_here()
                && final(self).pos == final(self).data@.len(),
            r matches Some(Ok(item)) ==> old(self).remaining().len() > 0
                && item.key@ == old(self).remaining()[0].0
                && item.value.ftype == old(self).remaining()[0].1.ftype
                && item.value.data@ == old(self).remaining()[0].1.payload
                && final(self).remaining() == old(self).remaining().skip(1)
                && (final(self).clean_from_here() <==> old(self).clean_from_here()),
            r is None ==> old(self).clean_from_here(),
    {
        let d: &'a [u8] = self.data;
        let len = d.len();
        if self.pos >= len {
            return None;
        }
        let start = self.pos;
        let rest: &[u8] = &d[start..len];
        proof {
            assert(rest@ == d@.skip(start as int));
        }
        match parse_frame(rest) {
            Err(_) => {
                self.pos = len;
                Some(Err(ParseError))
            },
            Ok((kf, kt)) => {
                if !matches!(kf.ftype, FrameType::Text) {
                    self.pos = len;
                    return Some(Err(ParseError));
                }
                let rest2: &[u8] = &d[start + kt..len];
                proof {
                    assert(rest2@ == d@.skip(start + kt));
                }
                match parse_frame(rest2) {
                    Err(_) => {
                        self.pos = len;
                        Some(Err(ParseError))
                    },
                    Ok((vf, vt)) => {
                        self.pos = start + kt + vt;
                        Some(Ok(MapItem { key: kf.data, value: vf }))
                    },
                }
            },
        }
    }
}

/// A cursor over the frames of a list payload.
pub struct FrameIterator<'a> {
    pub data: &'a [u8],
    pub pos: usize,
}

impl<'a> FrameIterator<'a> {
    pub open spec fn wf(&self) -> bool {
        self.pos <= self.data@.len()
    }

    /// The frames not yet handed out.
    pub open spec fn remaining(&self) -> Seq<GhostFrame> {
        spec_list_items(self.data@, self.pos as int)
    }

    /// Whether the rest of the payload parses cleanly to the end.
    pub open spec fn clean_from_here(&self) -> bool {
        spec_list_clean(self.data@, self.pos as int)
    }

    pub fn new(data: &'a [u8]) -> (r: Self)
        ensures
            r.data@ == data@,
            r.pos == 0,
            r.wf(),
    {
        FrameIterator { data, pos: 0 }
    }

    pub fn next(&mut self) -> (r: Option<Result<Frame<'a>, ParseError>>)
        requires
            old(self).wf(),
        ensures
            final(self).wf(),
            final(self).data@ == old(self).data@,
            r is None <==> old(self).pos == old(self).data@.len(),
            r is None ==> final(self).pos == old(self).pos,
            (r matches Some(x) && x is Err) <==> (old(self).pos < old(self).data@.len()
                && old(self).remaining().len() == 0),
            r matches Some(Err(_)) ==> !old(self).clean_from_here()
                && final(self).pos == final(self).data@.len(),
            r matches Some(Ok(f)) ==> old(self).remaining().len() > 0
                && f.ftype == old(self).remaining()[0].ftype
                && f.data@ == old(self).remaining()[0].payload
                && final(self).remaining() == old(self).remaining().skip(1)
                && (final(self).clean_from_here() <==> old(self).clean_from_here()),
            r is None ==> old(self).clean_from_here(),
    {
        let d: &'a [u8] = self.data;
        let len = d.len();
        if self.pos >= len {
            return None;
        }
        let start = self.pos;
        let rest: &[u8] = &d[start..len];
        proof {
            assert(rest@ == d@.skip(start as int));
        }
        match parse_frame(rest) {
            Err(_) => {
                self.pos = len;
                Some(Err(ParseError))
            },
            Ok((f, ft)) => {
                self.pos = start + ft;
                Some(Ok(f))
            },
        }
    }
}

/// Parses a frame and requires it to be text, handing back the payload.
pub fn parse_string(src: &[u8]) -> (r: Result<&[u8], ParseError>)
    ensures
        r is Ok <==> (spec_frame(src@) matches Some(f) && f.ftype == FrameType::Text),
        r matches Ok(p) ==> p@ == spec_frame(src@).unwrap().payload,
{
    match parse_frame(src) {
        Ok((f, _)) => {
            if f.ftype == FrameType::Text {
                Ok(f.data)
            } else {
                Err(ParseError)
            }
        },
        Err(e) => Err(e),
    }
}

} // verus!
