//! The kitty graphics protocol: separating APC sequences from the byte stream, parsing
//! their keys, assembling and decoding images, and placing them on the grid.
use vstd::prelude::*;
use vstd::utf8::{decode_utf8, valid_utf8};
use crate::grid::{Grid, GridModel, ImageView, PlacedImage};
use crate::ext::{base64_decode, base64_decode_no_pad, base64_no_pad_decode, base64_standard_decode, decode_image_rgba, image_rgba, utf8_decode};
use crate::text::{decimal, push_decimal, bytes_range, chars_of, find_byte_from, first_byte, first_byte_of, first_index, lemma_first_index_absent, lemma_first_index_found, parse_unsigned, parse_unsigned_chars, trim, trim_bounds};

verus! {

/// Where the APC splitter stands in the byte stream.
#[derive(Debug, PartialEq)]
pub enum ApcState {
    /// Outside any sequence.
    Idle,
    /// After an ESC outside a sequence.
    SawEsc,
    /// Inside an APC sequence, with the content so far.
    Collecting(Vec<u8>),
    /// Inside an APC sequence right after an ESC.
    CollectingSawEsc(Vec<u8>),
}

pub ghost enum ApcView {
    Idle,
    SawEsc,
    Collecting(Seq<u8>),
    CollectingSawEsc(Seq<u8>),
}

impl View for ApcState {
    type V = ApcView;

    open spec fn view(&self) -> ApcView {
        match self {
            ApcState::Idle => ApcView::Idle,
            ApcState::SawEsc => ApcView::SawEsc,
            ApcState::Collecting(b) => ApcView::Collecting(b@),
            ApcState::CollectingSawEsc(b) => ApcView::CollectingSawEsc(b@),
        }
    }
}

/// One byte through the splitter: the next state, the bytes passed on to the terminal
/// parser, and the content of an APC sequence it completes (ended by ST, `ESC \` or the
/// 8-bit 0x9C).
pub open spec fn apc_step(s: ApcView, b: u8) -> (ApcView, Seq<u8>, Option<Seq<u8>>) {
    match s {
        ApcView::Idle => if b == 0x1b { (ApcView::SawEsc, seq![], None) } else { (ApcView::Idle, seq![b], None) },
        ApcView::SawEsc => if b == 0x5f {
            (ApcView::Collecting(seq![]), seq![], None)
        } else {
            (ApcView::Idle, seq![0x1bu8, b], None)
        },
        ApcView::Collecting(buf) => if b == 0x1b {
            (ApcView::CollectingSawEsc(buf), seq![], None)
        } else if b == 0x9c {
            (ApcView::Idle, seq![], Some(buf))
        } else {
            (ApcView::Collecting(buf.push(b)), seq![], None)
        },
        ApcView::CollectingSawEsc(buf) => if b == 0x5c {
            (ApcView::Idle, seq![], Some(buf))
        } else if b == 0x1b {
            (ApcView::CollectingSawEsc(buf.push(0x1b)), seq![], None)
        } else {
            (ApcView::Collecting(buf.push(0x1b).push(b)), seq![], None)
        },
    }
}

impl ApcState {
    /// Feed one byte (see [`apc_step`]).
    pub fn advance(&mut self, byte: u8) -> (out: (Vec<u8>, Option<Vec<u8>>))
        ensures
            (final(self)@, out.0@, match out.1 { Some(v) => Some(v@), None => None::<Seq<u8>> })
                == apc_step(old(self)@, byte),
    {
        let mut cur = ApcState::Idle;
        std::mem::swap(&mut cur, self);
        match cur {
            ApcState::Idle => {
                if byte == 0x1b {
                    *self = ApcState::SawEsc;
                    (Vec::new(), None)
                } else {
                    (vec![byte], None)
                }
            },
            ApcState::SawEsc => {
                if byte == 0x5f {
                    *self = ApcState::Collecting(Vec::new());
                    (Vec::new(), None)
                } else {
                    (vec![0x1bu8, byte], None)
                }
            },
            ApcState::Collecting(mut buf) => {
                if byte == 0x1b {
                    *self = ApcState::CollectingSawEsc(buf);
                    (Vec::new(), None)
                } else if byte == 0x9c {
                    (Vec::new(), Some(buf))
                } else {
                    buf.push(byte);
                    *self = ApcState::Collecting(buf);
                    (Vec::new(), None)
                }
            },
            ApcState::CollectingSawEsc(mut buf) => {
                if byte == 0x5c {
                    (Vec::new(), Some(buf))
                } else if byte == 0x1b {
                    buf.push(0x1b);
                    *self = ApcState::CollectingSawEsc(buf);
                    (Vec::new(), None)
                } else {
                    buf.push(0x1b);
                    buf.push(byte);
                    *self = ApcState::Collecting(buf);
                    (Vec::new(), None)
                }
            },
        }
    }
}

/// Feeding a byte string: the final state, everything passed on, and the completed
/// APC contents in order.
pub open spec fn apc_feed(s: ApcView, bytes: Seq<u8>) -> (ApcView, Seq<u8>, Seq<Seq<u8>>)
    decreases bytes.len(),
{
    if bytes.len() == 0 {
        (s, seq![], seq![])
    } else {
        let (s1, pass, done) = apc_step(s, bytes[0]);
        let (s2, pass2, done2) = apc_feed(s1, bytes.drop_first());
        (s2, pass + pass2, match done { Some(c) => seq![c] + done2, None => done2 })
    }
}

/// Bytes that cannot start or end an APC sequence.
pub open spec fn plain_bytes(bytes: Seq<u8>) -> bool {
    forall|i: int| 0 <= i < bytes.len() ==> #[trigger] bytes[i] != 0x1b && bytes[i] != 0x9c
}

/// Outside any sequence, bytes without ESC pass through unchanged.
pub proof fn law_apc_plain_passthrough(bytes: Seq<u8>)
    requires
        plain_bytes(bytes),
    ensures
        apc_feed(ApcView::Idle, bytes) == (ApcView::Idle, bytes, Seq::<Seq<u8>>::empty()),
    decreases bytes.len(),
{
    if bytes.len() > 0 {
        assert(plain_bytes(bytes.drop_first())) by {
            assert forall|i: int| 0 <= i < bytes.drop_first().len() implies #[trigger] bytes.drop_first()[i] != 0x1b && bytes.drop_first()[i] != 0x9c by {
                assert(bytes.drop_first()[i] == bytes[i + 1]);
            }
        }
        law_apc_plain_passthrough(bytes.drop_first());
        assert(seq![bytes[0]] + bytes.drop_first() =~= bytes);
    }
}

proof fn lemma_apc_collect(buf: Seq<u8>, bytes: Seq<u8>)
    requires
        plain_bytes(bytes),
    ensures
        apc_feed(ApcView::Collecting(buf), bytes) == (ApcView::Collecting(buf + bytes), Seq::<u8>::empty(), Seq::<Seq<u8>>::empty()),
    decreases bytes.len(),
{
    if bytes.len() == 0 {
        assert(buf + bytes =~= buf);
    } else {
        assert(plain_bytes(bytes.drop_first())) by {
            assert forall|i: int| 0 <= i < bytes.drop_first().len() implies #[trigger] bytes.drop_first()[i] != 0x1b && bytes.drop_first()[i] != 0x9c by {
                assert(bytes.drop_first()[i] == bytes[i + 1]);
            }
        }
        assert(bytes[0] != 0x1b && bytes[0] != 0x9c);
        lemma_apc_collect(buf.push(bytes[0]), bytes.drop_first());
        assert(buf.push(bytes[0]) + bytes.drop_first() =~= buf + bytes);
        assert(Seq::<u8>::empty() + Seq::<u8>::empty() =~= Seq::<u8>::empty());
    }
}

/// An APC sequence `ESC _ content ESC \` whose content holds no ESC is taken out of the
/// stream whole: nothing passes through and its content is delivered.
pub proof fn law_apc_roundtrip(content: Seq<u8>)
    requires
        plain_bytes(content),
    ensures
        apc_feed(ApcView::Idle, seq![0x1bu8, 0x5fu8] + content + seq![0x1bu8, 0x5cu8])
            == (ApcView::Idle, Seq::<u8>::empty(), seq![content]),
{
    let e: Seq<u8> = Seq::empty();
    let none: Seq<Seq<u8>> = Seq::empty();
    let end = seq![0x1bu8, 0x5cu8];
    let all = seq![0x1bu8, 0x5fu8] + content + end;
    let last = seq![0x5cu8];
    assert(last.drop_first() =~= e);
    assert(apc_feed(ApcView::Idle, e) == (ApcView::Idle, e, none));
    assert(apc_feed(ApcView::CollectingSawEsc(content), last) == (ApcView::Idle, e, seq![content])) by {
        assert(e + e =~= e);
        assert(seq![content] + none =~= seq![content]);
    }
    assert(end.drop_first() =~= last);
    assert(apc_feed(ApcView::Collecting(content), end) == (ApcView::Idle, e, seq![content])) by {
        assert(e + e =~= e);
    }
    lemma_apc_collect(e, content);
    assert(e + content =~= content);
    law_apc_feed_concat(ApcView::Collecting(e), content, end);
    assert(e + e =~= e);
    assert(none + seq![content] =~= seq![content]);
    let tail1 = all.drop_first();
    let tail2 = tail1.drop_first();
    assert(tail2 =~= content + end);
    assert(apc_feed(ApcView::SawEsc, tail1) == (ApcView::Idle, e, seq![content]));
}

/// An APC sequence ended by the 8-bit string terminator, `ESC _ content 0x9C`, with no
/// ESC or 0x9C in its content, is taken out of the stream whole: nothing passes through,
/// its content is delivered, and the splitter is idle again, so that a following byte
/// other than ESC passes through.
pub proof fn law_apc_roundtrip_c1(content: Seq<u8>, next: u8)
    requires
        plain_bytes(content),
        next != 0x1b,
    ensures
        apc_feed(ApcView::Idle, seq![0x1bu8, 0x5fu8] + content + seq![0x9cu8])
            == (ApcView::Idle, Seq::<u8>::empty(), seq![content]),
        apc_feed(ApcView::Idle, seq![0x1bu8, 0x5fu8] + content + seq![0x9cu8, next])
            == (ApcView::Idle, seq![next], seq![content]),
{
    let e: Seq<u8> = Seq::empty();
    let none: Seq<Seq<u8>> = Seq::empty();
    let end = seq![0x9cu8];
    let all = seq![0x1bu8, 0x5fu8] + content + end;
    assert(end.drop_first() =~= e);
    assert(apc_feed(ApcView::Idle, e) == (ApcView::Idle, e, none));
    assert(apc_feed(ApcView::Collecting(content), end) == (ApcView::Idle, e, seq![content])) by {
        assert(e + e =~= e);
        assert(seq![content] + none =~= seq![content]);
    }
    lemma_apc_collect(e, content);
    assert(e + content =~= content);
    law_apc_feed_concat(ApcView::Collecting(e), content, end);
    assert(e + e =~= e);
    assert(none + seq![content] =~= seq![content]);
    let tail1 = all.drop_first();
    let tail2 = tail1.drop_first();
    assert(tail2 =~= content + end);
    assert(apc_feed(ApcView::SawEsc, tail1) == (ApcView::Idle, e, seq![content]));
    let one = seq![next];
    assert(one.drop_first() =~= e);
    assert(apc_feed(ApcView::Idle, one) == (ApcView::Idle, one, none)) by {
        assert(one + e =~= one);
    }
    law_apc_feed_concat(ApcView::Idle, all, one);
    assert(all + one =~= seq![0x1bu8, 0x5fu8] + content + seq![0x9cu8, next]);
    assert(e + one =~= one);
    assert(seq![content] + none =~= seq![content]);
}

/// Feeding two byte strings one after the other is feeding their concatenation.
pub proof fn law_apc_feed_concat(s: ApcView, a: Seq<u8>, b: Seq<u8>)
    ensures
        apc_feed(s, a + b) == ({
            let (s1, p1, d1) = apc_feed(s, a);
            let (s2, p2, d2) = apc_feed(s1, b);
            (s2, p1 + p2, d1 + d2)
        }),
    decreases a.len(),
{
    if a.len() == 0 {
        assert(a + b =~= b);
        let (s2, p2, d2) = apc_feed(s, b);
        assert(Seq::<u8>::empty() + p2 =~= p2);
        assert(Seq::<Seq<u8>>::empty() + d2 =~= d2);
    } else {
        assert((a + b).drop_first() =~= a.drop_first() + b);
        let (s1, pass, done) = apc_step(s, a[0]);
        law_apc_feed_concat(s1, a.drop_first(), b);
        let (t1, q1, e1) = apc_feed(s1, a.drop_first());
        let (t2, q2, e2) = apc_feed(t1, b);
        assert(pass + (q1 + q2) =~= (pass + q1) + q2);
        match done {
            Some(c) => {
                assert(seq![c] + (e1 + e2) =~= (seq![c] + e1) + e2);
            },
            None => {},
        }
    }
}


/// The control keys of a graphics command, with their defaults applied.
#[derive(Clone, Copy)]
pub struct KittyKeys {
    pub action: u8,
    pub format: u32,
    pub width: u32,
    pub height: u32,
    pub id: u32,
    pub more: bool,
    pub quiet: u8,
    pub medium: u8,
}

pub open spec fn default_keys() -> KittyKeys {
    KittyKeys { action: 0x54, format: 32, width: 0, height: 0, id: 0, more: false, quiet: 0, medium: 0x64 }
}

pub open spec fn parsed_or(v: Seq<char>, max: nat, d: nat) -> nat {
    match parse_unsigned(v, max) {
        Some(x) => x,
        None => d,
    }
}

/// One `key=value` entry (surrounding whitespace ignored): `a` action, `f` format, `s`
/// width, `v` height, `i` image id, `m` more chunks follow (`1`), `q` quietness, `t`
/// transmission medium. Unknown keys are ignored; unparsable numbers take the default.
pub open spec fn apply_kv(k: KittyKeys, kv: Seq<char>) -> KittyKeys {
    let (kr, vr) = match first_index(kv, '=') {
        Some(i) => (kv.take(i as int), kv.skip(i + 1int)),
        None => (kv, Seq::<char>::empty()),
    };
    let key = trim(kr);
    let val = trim(vr);
    if key == seq!['a'] {
        KittyKeys { action: first_byte(val, 0x54), ..k }
    } else if key == seq!['f'] {
        KittyKeys { format: parsed_or(val, u32::MAX as nat, 32) as u32, ..k }
    } else if key == seq!['s'] {
        KittyKeys { width: parsed_or(val, u32::MAX as nat, 0) as u32, ..k }
    } else if key == seq!['v'] {
        KittyKeys { height: parsed_or(val, u32::MAX as nat, 0) as u32, ..k }
    } else if key == seq!['i'] {
        KittyKeys { id: parsed_or(val, u32::MAX as nat, 0) as u32, ..k }
    } else if key == seq!['m'] {
        KittyKeys { more: val == seq!['1'], ..k }
    } else if key == seq!['q'] {
        KittyKeys { quiet: parsed_or(val, 255, 0) as u8, ..k }
    } else if key == seq!['t'] {
        KittyKeys { medium: first_byte(val, 0x64), ..k }
    } else {
        k
    }
}

/// The comma-separated entries of `s`, applied in order.
pub open spec fn apply_keys(k: KittyKeys, s: Seq<char>) -> KittyKeys
    decreases s.len(),
{
    match first_index(s, ',') {
        Some(i) => if i < s.len() { apply_keys(apply_kv(k, s.take(i as int)), s.skip(i + 1int)) } else { k },
        None => apply_kv(k, s),
    }
}

/// A parsed graphics command.
#[derive(Debug, PartialEq)]
pub struct KittyApcCommand {
    pub action: u8,
    pub format: u32,
    pub width: u32,
    pub height: u32,
    pub id: u32,
    pub more: bool,
    pub quiet: u8,
    pub data: Vec<u8>,
}

pub ghost struct KittyCommandView {
    pub keys: KittyKeys,
    pub data: Seq<u8>,
}

impl View for KittyApcCommand {
    type V = KittyCommandView;

    open spec fn view(&self) -> KittyCommandView {
        KittyCommandView {
            keys: KittyKeys {
                action: self.action,
                format: self.format,
                width: self.width,
                height: self.height,
                id: self.id,
                more: self.more,
                quiet: self.quiet,
                medium: 0x64,
            },
            data: self.data@,
        }
    }
}

/// A graphics command: `G`, control keys up to the first `;` (UTF-8), then the payload.
/// Only direct transmission (`t=d`) is accepted.
pub open spec fn parse_kitty(content: Seq<u8>) -> Option<KittyCommandView> {
    if content.len() == 0 || content[0] != 0x47 {
        None
    } else {
        let rest = content.skip(1);
        let (kb, data) = match first_index(rest, 0x3bu8) {
            Some(i) => (rest.take(i as int), rest.skip(i + 1int)),
            None => (rest, Seq::<u8>::empty()),
        };
        if !valid_utf8(kb) {
            None
        } else {
            let k = apply_keys(default_keys(), decode_utf8(kb));
            if k.medium != 0x64 { None } else { Some(KittyCommandView { keys: k, data }) }
        }
    }
}

fn is_key(v: &[char], from: usize, to: usize, c: char) -> (r: bool)
    requires
        from <= to <= v@.len(),
    ensures
        r == (v@.subrange(from as int, to as int) == seq![c]),
{
    if to - from == 1 && v[from] == c {
        assert(v@.subrange(from as int, to as int) =~= seq![c]);
        true
    } else {
        assert(seq![c].len() == 1);
        if to - from == 1 {
            assert(v@.subrange(from as int, to as int)[0] != seq![c][0]);
        } else {
            assert(v@.subrange(from as int, to as int).len() != seq![c].len());
        }
        false
    }
}

fn parse_or(v: &[char], from: usize, to: usize, max: u32, d: u32) -> (x: u32)
    requires
        from <= to <= v@.len(),
        d <= max,
    ensures
        x as nat == parsed_or(v@.subrange(from as int, to as int), max as nat, d as nat),
        x <= max,
{
    match parse_unsigned_chars(v, from, to, max) {
        Some(x) => x,
        None => d,
    }
}

/// Apply one `key=value` entry `v[from..to]` (see [`apply_kv`]).
fn apply_entry(k: KittyKeys, v: &[char], from: usize, to: usize) -> (out: KittyKeys)
    requires
        from <= to <= v@.len(),
    ensures
        out == apply_kv(k, v@.subrange(from as int, to as int)),
{
    let ghost kv = v@.subrange(from as int, to as int);
    let eq = find_char_from_to(v, from, to, '=');
    let (kf, kt, vf, vt) = match eq {
        Some(i) => (from, i, i + 1, to),
        None => (from, to, to, to),
    };
    proof {
        match eq {
            Some(i) => {
                assert(kv.take(i - from) =~= v@.subrange(kf as int, kt as int));
                assert(kv.skip(i - from + 1) =~= v@.subrange(vf as int, vt as int));
            },
            None => {
                assert(kv =~= v@.subrange(kf as int, kt as int));
                assert(v@.subrange(vf as int, vt as int) =~= Seq::<char>::empty());
            },
        }
    }
    let (ka, kb) = trim_bounds(v, kf, kt);
    let (va, vb) = trim_bounds(v, vf, vt);
    let mut out = k;
    if is_key(v, ka, kb, 'a') {
        out.action = first_byte_of(v, va, vb, 0x54);
    } else if is_key(v, ka, kb, 'f') {
        out.format = parse_or(v, va, vb, 0xffff_ffff, 32);
    } else if is_key(v, ka, kb, 's') {
        out.width = parse_or(v, va, vb, 0xffff_ffff, 0);
    } else if is_key(v, ka, kb, 'v') {
        out.height = parse_or(v, va, vb, 0xffff_ffff, 0);
    } else if is_key(v, ka, kb, 'i') {
        out.id = parse_or(v, va, vb, 0xffff_ffff, 0);
    } else if is_key(v, ka, kb, 'm') {
        out.more = is_key(v, va, vb, '1');
    } else if is_key(v, ka, kb, 'q') {
        out.quiet = parse_or(v, va, vb, 255, 0) as u8;
    } else if is_key(v, ka, kb, 't') {
        out.medium = first_byte_of(v, va, vb, 0x64);
    }
    out
}

/// The first position in `v[from..to]` holding `c`.
fn find_char_from_to(v: &[char], from: usize, to: usize, c: char) -> (r: Option<usize>)
    requires
        from <= to <= v@.len(),
    ensures
        match r {
            Some(i) => from <= i < to && first_index(v@.subrange(from as int, to as int), c) == Some((i - from) as nat),
            None => first_index(v@.subrange(from as int, to as int), c) is None,
        },
{
    let mut i = from;
    while i < to
        invariant
            from <= i <= to <= v@.len(),
            forall|k: int| from <= k < i ==> v@[k] != c,
        decreases to - i,
    {
        if v[i] == c {
            proof {
                lemma_first_index_found(v@.subrange(from as int, to as int), c, i - from);
            }
            return Some(i);
        }
        i = i + 1;
    }
    proof {
        lemma_first_index_absent(v@.subrange(from as int, to as int), c);
    }
    None
}

/// Parse the content of an APC sequence as a graphics command (see [`parse_kitty`]).
pub fn parse_kitty_apc(content: &[u8]) -> (out: Option<KittyApcCommand>)
    ensures
        match out {
            Some(c) => parse_kitty(content@) == Some(c@),
            None => parse_kitty(content@) is None,
        },
{
    let n = content.len();
    if n == 0 || content[0] != 0x47 {
        return None;
    }
    let ghost rest = content@.skip(1);
    let sep = find_byte_from(content, 1, 0x3b);
    let (kend, dstart) = match sep {
        Some(i) => (i, i + 1),
        None => (n, n),
    };
    let keys_bytes = bytes_range(content, 1, kend);
    let data = bytes_range(content, dstart, n);
    proof {
        match sep {
            Some(i) => {
                assert(rest.take(i - 1) =~= keys_bytes@);
                assert(rest.skip(i - 1 + 1) =~= data@);
            },
            None => {
                assert(rest =~= keys_bytes@);
                assert(data@ =~= Seq::<u8>::empty());
            },
        }
    }
    let keys = match utf8_decode(keys_bytes.as_slice()) {
        Some(s) => s,
        None => return None,
    };
    let v = chars_of(keys.as_str());
    let len = v.len();
    let mut k = KittyKeys { action: 0x54, format: 32, width: 0, height: 0, id: 0, more: false, quiet: 0, medium: 0x64 };
    let mut start: usize = 0;
    assert(v@.subrange(0, len as int) =~= v@);
    loop
        invariant
            start <= len,
            len == v@.len(),
            apply_keys(k, v@.subrange(start as int, len as int)) == apply_keys(default_keys(), v@),
        ensures
            k == apply_keys(default_keys(), v@),
        decreases len - start,
    {
        let ghost seg = v@.subrange(start as int, len as int);
        match find_char_from_to(v.as_slice(), start, len, ',') {
            Some(i) => {
                proof {
                    assert(seg.take(i - start) =~= v@.subrange(start as int, i as int));
                    assert(seg.skip(i - start + 1) =~= v@.subrange(i + 1, len as int));
                }
                k = apply_entry(k, v.as_slice(), start, i);
                start = i + 1;
            },
            None => {
                k = apply_entry(k, v.as_slice(), start, len);
                break;
            },
        }
    }
    if k.medium != 0x64 {
        return None;
    }
    Some(KittyApcCommand {
        action: k.action,
        format: k.format,
        width: k.width,
        height: k.height,
        id: k.id,
        more: k.more,
        quiet: k.quiet,
        data,
    })
}

/// All chunks joined in order.
pub open spec fn joined_chunks(chunks: Seq<Seq<u8>>) -> Seq<u8>
    decreases chunks.len(),
{
    if chunks.len() == 0 {
        Seq::empty()
    } else {
        joined_chunks(chunks.drop_last()) + chunks.last()
    }
}

/// The payload decoded as padded base64, or else as unpadded base64.
pub open spec fn decoded_payload(data: Seq<u8>) -> Option<Seq<u8>> {
    match base64_standard_decode(data) {
        Some(b) => Some(b),
        None => base64_no_pad_decode(data),
    }
}

/// RGB pixels widened to RGBA with full opacity.
pub open spec fn rgb_to_rgba(raw: Seq<u8>) -> Seq<u8> {
    Seq::new((raw.len() / 3) * 4, |i: int| if i % 4 == 3 { 255u8 } else { raw[(i / 4) * 3 + i % 4] })
}

/// The image in the decoded payload `raw` of a transmission: 32-bit RGBA or 24-bit RGB
/// of the stated non-zero size (RGB widened with an opaque alpha), or an encoded PNG
/// (format 100) whose size the decoder reports.
pub open spec fn image_of_raw(raw: Seq<u8>, format: u32, width: u32, height: u32) -> Option<(Seq<u8>, u32, u32)> {
    if format == 32 {
        if width == 0 || height == 0 || raw.len() != width * height * 4 { None } else { Some((raw, width, height)) }
    } else if format == 24 {
        if width == 0 || height == 0 || raw.len() != width * height * 3 { None } else { Some((rgb_to_rgba(raw), width, height)) }
    } else if format == 100 {
        image_rgba(raw)
    } else {
        None
    }
}

/// The image carried by the chunks of a transmission: their joined base64 payload,
/// decoded (see [`image_of_raw`]).
pub open spec fn decode_image(chunks: Seq<Seq<u8>>, last: Seq<u8>, format: u32, width: u32, height: u32) -> Option<(Seq<u8>, u32, u32)> {
    match decoded_payload(joined_chunks(chunks) + last) {
        None => None,
        Some(raw) => image_of_raw(raw, format, width, height),
    }
}

/// The byte count of a raw image must fit the 32-bit arithmetic it is computed in.
pub open spec fn image_dims_ok(format: u32, width: u32, height: u32) -> bool {
    &&& (format == 32 && width != 0 && height != 0) ==> width * height * 4 <= u32::MAX
    &&& (format == 24 && width != 0 && height != 0) ==> width * height * 3 <= u32::MAX
}

fn join_chunks(prior_chunks: &[Vec<u8>], final_data: &[u8]) -> (out: Vec<u8>)
    ensures
        out@ == joined_chunks(prior_chunks@.map_values(|c: Vec<u8>| c@)) + final_data@,
{
    let ghost cs = prior_chunks@.map_values(|c: Vec<u8>| c@);
    let mut out: Vec<u8> = Vec::new();
    let mut i: usize = 0;
    assert(cs.take(0) =~= Seq::<Seq<u8>>::empty());
    while i < prior_chunks.len()
        invariant
            i <= prior_chunks@.len(),
            cs == prior_chunks@.map_values(|c: Vec<u8>| c@),
            out@ == joined_chunks(cs.take(i as int)),
        decreases prior_chunks@.len() - i,
    {
        let chunk = &prior_chunks[i];
        let mut j: usize = 0;
        let ghost before = out@;
        while j < chunk.len()
            invariant
                j <= chunk@.len(),
                out@ == before + chunk@.take(j as int),
            decreases chunk@.len() - j,
        {
            out.push(chunk[j]);
            j = j + 1;
            assert(out@ =~= before + chunk@.take(j as int));
        }
        assert(cs.take(i + 1).drop_last() =~= cs.take(i as int));
        assert(chunk@.take(chunk@.len() as int) =~= chunk@);
        i = i + 1;
    }
    assert(cs.take(prior_chunks@.len() as int) =~= cs);
    let mut j: usize = 0;
    let ghost before = out@;
    while j < final_data.len()
        invariant
            j <= final_data@.len(),
            out@ == before + final_data@.take(j as int),
        decreases final_data@.len() - j,
    {
        out.push(final_data[j]);
        j = j + 1;
        assert(out@ =~= before + final_data@.take(j as int));
    }
    assert(final_data@.take(final_data@.len() as int) =~= final_data@);
    out
}

fn widen_rgb(raw: &Vec<u8>) -> (out: Vec<u8>)
    ensures
        out@ == rgb_to_rgba(raw@),
{
    let len = raw.len();
    let n = len / 3;
    let mut out: Vec<u8> = Vec::new();
    let mut p: usize = 0;
    while p < n
        invariant
            len == raw@.len(),
            n == raw@.len() / 3,
            p <= n,
            out@.len() == 4 * p,
            forall|i: int| 0 <= i < 4 * p ==> #[trigger] out@[i] == (if i % 4 == 3 { 255u8 } else { raw@[(i / 4) * 3 + i % 4] }),
        decreases n - p,
    {
        out.push(raw[3 * p]);
        out.push(raw[3 * p + 1]);
        out.push(raw[3 * p + 2]);
        out.push(255u8);
        p = p + 1;
    }
    assert(out@ =~= rgb_to_rgba(raw@));
    out
}

/// Decode the image of a transmission (see [`decode_image`]).
pub fn decode_kitty_image(prior_chunks: &[Vec<u8>], final_data: &[u8], format: u32, width: u32, height: u32) -> (out: Option<(Vec<u8>, u32, u32)>)
    requires
        image_dims_ok(format, width, height),
    ensures
        match out {
            Some((px, w, h)) => decode_image(prior_chunks@.map_values(|c: Vec<u8>| c@), final_data@, format, width, height) == Some((px@, w, h)),
            None => decode_image(prior_chunks@.map_values(|c: Vec<u8>| c@), final_data@, format, width, height) is None,
        },
{
    let combined = join_chunks(prior_chunks, final_data);
    let raw = match base64_decode(combined.as_slice()) {
        Some(b) => b,
        None => match base64_decode_no_pad(combined.as_slice()) {
            Some(b) => b,
            None => return None,
        },
    };
    image_from_raw(raw, format, width, height)
}

/// The image in the decoded payload of a transmission (see [`image_of_raw`]).
pub fn image_from_raw(raw: Vec<u8>, format: u32, width: u32, height: u32) -> (out: Option<(Vec<u8>, u32, u32)>)
    requires
        image_dims_ok(format, width, height),
    ensures
        match out {
            Some((px, w, h)) => image_of_raw(raw@, format, width, height) == Some((px@, w, h)),
            None => image_of_raw(raw@, format, width, height) is None,
        },
{
    if format == 32 {
        if width == 0 || height == 0 {
            return None;
        }
        let size = width * height * 4;
        if raw.len() != size as usize {
            return None;
        }
        Some((raw, width, height))
    } else if format == 24 {
        if width == 0 || height == 0 {
            return None;
        }
        let size = width * height * 3;
        if raw.len() != size as usize {
            return None;
        }
        Some((widen_rgb(&raw), width, height))
    } else if format == 100 {
        decode_image_rgba(raw.as_slice())
    } else {
        None
    }
}

/// A chunked transmission waiting for its last chunk.
pub struct PendingKittyImage {
    pub format: u32,
    pub width: u32,
    pub height: u32,
    pub id: u32,
    pub chunks: Vec<Vec<u8>>,
}

pub ghost struct PendingView {
    pub format: u32,
    pub width: u32,
    pub height: u32,
    pub id: u32,
    pub chunks: Seq<Seq<u8>>,
}

impl View for PendingKittyImage {
    type V = PendingView;

    open spec fn view(&self) -> PendingView {
        PendingView {
            format: self.format,
            width: self.width,
            height: self.height,
            id: self.id,
            chunks: self.chunks@.map_values(|c: Vec<u8>| c@),
        }
    }
}

pub open spec fn pending_view(p: Option<PendingKittyImage>) -> Option<PendingView> {
    match p {
        Some(x) => Some(x@),
        None => None,
    }
}

/// A decoded image ready to be placed at the cursor.
pub struct KittyImage {
    pub id: u32,
    pub pixel_width: u32,
    pub pixel_height: u32,
    pub rgba: Vec<u8>,
    pub quiet: u8,
}

pub ghost struct KittyImageView {
    pub id: u32,
    pub pixel_width: u32,
    pub pixel_height: u32,
    pub rgba: Seq<u8>,
    pub quiet: u8,
}

impl View for KittyImage {
    type V = KittyImageView;

    open spec fn view(&self) -> KittyImageView {
        KittyImageView { id: self.id, pixel_width: self.pixel_width, pixel_height: self.pixel_height, rgba: self.rgba@, quiet: self.quiet }
    }
}

/// The format, size and id of a final chunk: its own non-zero values, else those of the
/// pending transmission, else the defaults (32, 0, 0, 0).
pub open spec fn final_params(k: KittyKeys, p: Option<PendingView>) -> (u32, u32, u32, u32) {
    (
        if k.format != 0 { k.format } else { match p { Some(q) => q.format, None => 32 } },
        if k.width != 0 { k.width } else { match p { Some(q) => q.width, None => 0 } },
        if k.height != 0 { k.height } else { match p { Some(q) => q.height, None => 0 } },
        if k.id != 0 { k.id } else { match p { Some(q) => q.id, None => 0 } },
    )
}

/// Images other than those with id `id`.
pub open spec fn without_id(imgs: Seq<ImageView>, id: u32) -> Seq<ImageView>
    decreases imgs.len(),
{
    if imgs.len() == 0 {
        imgs
    } else {
        let rest = without_id(imgs.drop_last(), id);
        if imgs.last().id != id { rest.push(imgs.last()) } else { rest }
    }
}

/// A graphics command applied: a transmission chunk with more to follow is kept pending;
/// the last chunk decodes the whole image (clearing what was pending), which is then due
/// for placement; `a=d` deletes the images with the given id, or all of them for id 0.
pub open spec fn kitty_stage(g: GridModel, p: Option<PendingView>, content: Seq<u8>) -> (GridModel, Option<PendingView>, Option<KittyImageView>) {
    match parse_kitty(content) {
        None => (g, p, None),
        Some(cmd) => {
            let k = cmd.keys;
            if k.action == 0x54 || k.action == 0x74 {
                if k.more {
                    match p {
                        Some(q) => (g, Some(PendingView { chunks: q.chunks.push(cmd.data), ..q }), None),
                        None => (g, Some(PendingView { format: k.format, width: k.width, height: k.height, id: k.id, chunks: seq![cmd.data] }), None),
                    }
                } else {
                    let (format, width, height, id) = final_params(k, p);
                    let chunks = match p { Some(q) => q.chunks, None => Seq::empty() };
                    match decode_image(chunks, cmd.data, format, width, height) {
                        Some((rgba, pw, ph)) => (g, None, Some(KittyImageView { id, pixel_width: pw, pixel_height: ph, rgba, quiet: k.quiet })),
                        None => (g, None, None),
                    }
                }
            } else if k.action == 0x64 {
                (GridModel { images: if k.id != 0 { without_id(g.images, k.id) } else { Seq::empty() }, ..g }, p, None)
            } else {
                (g, p, None)
            }
        },
    }
}

/// What a graphics command needs: a final chunk's raw image size fits 32 bits.
pub open spec fn kitty_stage_ok(p: Option<PendingView>, content: Seq<u8>) -> bool {
    match parse_kitty(content) {
        Some(cmd) => {
            let (format, width, height, _) = final_params(cmd.keys, p);
            ((cmd.keys.action == 0x54 || cmd.keys.action == 0x74) && !cmd.keys.more) ==> image_dims_ok(format, width, height)
        },
        None => true,
    }
}

impl Grid {
    /// Drop the images with id `id`.
    pub fn remove_images(&mut self, id: u32)
        ensures
            final(self)@ == (GridModel { images: without_id(old(self)@.images, id), ..old(self)@ }),
            final(self).cells == old(self).cells,
            final(self).cols == old(self).cols,
            final(self).rows == old(self).rows,
    {
        let mut kept: Vec<PlacedImage> = Vec::new();
        let mut taken: Vec<PlacedImage> = Vec::new();
        std::mem::swap(&mut taken, &mut self.images);
        let ghost all = taken@.map_values(|i: PlacedImage| i@);
        let ghost g0 = old(self)@;
        assert(all == g0.images);
        let n = taken.len();
        let mut rev: Vec<PlacedImage> = Vec::new();
        while taken.len() > 0
            invariant
                taken@.len() + rev@.len() == n,
                n == all.len(),
                forall|j: int| 0 <= j < taken@.len() ==> #[trigger] taken@[j]@ == all[j],
                forall|j: int| 0 <= j < rev@.len() ==> #[trigger] rev@[j]@ == all[n - 1 - j],
            decreases taken@.len(),
        {
            let x = taken.pop().unwrap();
            rev.push(x);
        }
        let mut i: usize = 0;
        assert(all.take(0) =~= Seq::<ImageView>::empty());
        while i < n
            invariant
                rev@.len() == n - i,
                n == all.len(),
                i <= n,
                forall|j: int| 0 <= j < n - i ==> #[trigger] rev@[j]@ == all[n - 1 - j],
                kept@.map_values(|x: PlacedImage| x@) == without_id(all.take(i as int), id),
            decreases n - i,
        {
            let x = rev.pop().unwrap();
            assert(x@ == all[i as int]);
            assert(all.take(i + 1).drop_last() =~= all.take(i as int));
            let ghost before = kept@.map_values(|x: PlacedImage| x@);
            if x.id != id {
                kept.push(x);
                assert(kept@.map_values(|x: PlacedImage| x@) =~= before.push(all[i as int]));
            }
            i = i + 1;
        }
        assert(all.take(n as int) =~= all);
        self.images = kept;
        assert(self@ =~= GridModel { images: without_id(g0.images, id), ..g0 });
    }

    /// Drop all images.
    pub fn clear_images(&mut self)
        ensures
            final(self)@ == (GridModel { images: Seq::empty(), ..old(self)@ }),
            final(self).cells == old(self).cells,
            final(self).cols == old(self).cols,
            final(self).rows == old(self).rows,
    {
        self.images = Vec::new();
        assert(self@ =~= GridModel { images: Seq::empty(), ..old(self)@ });
    }
}

/// Apply a graphics command (see [`kitty_stage`]); gives the decoded image when one is
/// due for placement.
pub fn kitty_command(content: &[u8], grid: &mut Grid, pending: &mut Option<PendingKittyImage>) -> (out: Option<KittyImage>)
    requires
        kitty_stage_ok(pending_view(*old(pending)), content@),
    ensures
        (final(grid)@, pending_view(*final(pending)), match out { Some(i) => Some(i@), None => None::<KittyImageView> })
            == kitty_stage(old(grid)@, pending_view(*old(pending)), content@),
        final(grid).cells == old(grid).cells,
        final(grid).cols == old(grid).cols,
        final(grid).rows == old(grid).rows,
{
    let cmd = match parse_kitty_apc(content) {
        Some(c) => c,
        None => return None,
    };
    if cmd.action == 0x54 || cmd.action == 0x74 {
        if cmd.more {
            let mut cur: Option<PendingKittyImage> = None;
            std::mem::swap(&mut cur, pending);
            match cur {
                Some(mut p) => {
                    let ghost before = p@;
                    p.chunks.push(cmd.data);
                    assert(p@.chunks =~= before.chunks.push(cmd@.data));
                    *pending = Some(p);
                },
                None => {
                    let chunks = vec![cmd.data];
                    assert(chunks@.map_values(|c: Vec<u8>| c@) =~= seq![cmd@.data]);
                    *pending = Some(PendingKittyImage { format: cmd.format, width: cmd.width, height: cmd.height, id: cmd.id, chunks });
                },
            }
            None
        } else {
            let mut prior: Option<PendingKittyImage> = None;
            std::mem::swap(&mut prior, pending);
            let (pf, pw, ph, pid) = match &prior {
                Some(p) => (p.format, p.width, p.height, p.id),
                None => (32, 0, 0, 0),
            };
            let format = if cmd.format != 0 { cmd.format } else { pf };
            let width = if cmd.width != 0 { cmd.width } else { pw };
            let height = if cmd.height != 0 { cmd.height } else { ph };
            let image_id = if cmd.id != 0 { cmd.id } else { pid };
            let prior_chunks: Vec<Vec<u8>> = match prior {
                Some(p) => p.chunks,
                None => Vec::new(),
            };
            assert(prior_chunks@.map_values(|c: Vec<u8>| c@) == (match pending_view(*old(pending)) { Some(q) => q.chunks, None => Seq::<Seq<u8>>::empty() })) by {
                if old(pending).is_none() {
                    assert(prior_chunks@.map_values(|c: Vec<u8>| c@) =~= Seq::<Seq<u8>>::empty());
                }
            }
            match decode_kitty_image(prior_chunks.as_slice(), cmd.data.as_slice(), format, width, height) {
                Some((rgba, w, h)) => Some(KittyImage { id: image_id, pixel_width: w, pixel_height: h, rgba, quiet: cmd.quiet }),
                None => None,
            }
        }
    } else if cmd.action == 0x64 {
        if cmd.id != 0 {
            grid.remove_images(cmd.id);
        } else {
            grid.clear_images();
        }
        None
    } else {
        None
    }
}

/// The reply to a successful transmission: `ESC _ G a=T[,i=id] ; OK ESC \`.
pub open spec fn ok_reply(id: u32) -> Seq<u8> {
    seq![0x1bu8, 0x5f, 0x47, 0x61, 0x3d, 0x54]
        + (if id != 0 { seq![0x2cu8, 0x69, 0x3d] + decimal(id as nat) } else { Seq::<u8>::empty() })
        + seq![0x3bu8, 0x4f, 0x4b, 0x1b, 0x5c]
}

/// The image list with `img` added at the cursor, replacing images of the same
/// non-zero id.
pub open spec fn with_image(g: GridModel, img: KittyImageView) -> GridModel {
    let imgs = if img.id != 0 { without_id(g.images, img.id) } else { g.images };
    let placed = ImageView {
        id: img.id,
        row: g.cursor_y,
        col: g.cursor_x,
        pixel_width: img.pixel_width,
        pixel_height: img.pixel_height,
        rgba: img.rgba,
    };
    GridModel { images: imgs.push(placed), ..g }
}

/// The cursor moved to the start of the row `term_rows` below, scrolling when that is
/// past the last row.
pub open spec fn below_image(g: GridModel, term_rows: nat) -> GridModel {
    let new_y = g.cursor_y + term_rows;
    let g2 = if new_y >= g.rows {
        GridModel { cursor_y: (g.rows - 1) as nat, ..g.scroll_up((new_y - g.rows + 1) as nat) }
    } else {
        GridModel { cursor_y: new_y, ..g }
    };
    GridModel { cursor_x: 0, ..g2 }
}

/// Placing an image at the cursor: an image with the same non-zero id is replaced, the
/// cursor moves below it, and unless quiet the application is told.
pub open spec fn place_spec(g: GridModel, img: KittyImageView, term_rows: nat) -> GridModel {
    let g3 = below_image(with_image(g, img), term_rows);
    if img.quiet < 2 { GridModel { output_queue: g3.output_queue.push(ok_reply(img.id)), ..g3 } } else { g3 }
}

fn add_image(grid: &mut Grid, img: KittyImage) -> (r: (u32, u8))
    ensures
        final(grid)@ == with_image(old(grid)@, img@),
        final(grid).cells == old(grid).cells,
        final(grid).cols == old(grid).cols,
        final(grid).rows == old(grid).rows,
        r == (img@.id, img@.quiet),
{
    let ghost g0 = grid@;
    let ghost iv = img@;
    if img.id != 0 {
        grid.remove_images(img.id);
    }
    let ghost g1 = grid@;
    let ghost before = grid.images@;
    let r = (img.id, img.quiet);
    grid.images.push(PlacedImage {
        id: img.id,
        row: grid.cursor_y,
        col: grid.cursor_x,
        pixel_width: img.pixel_width,
        pixel_height: img.pixel_height,
        rgba: img.rgba,
    });
    assert(grid.images@.map_values(|i: PlacedImage| i@) =~= before.map_values(|i: PlacedImage| i@).push(ImageView {
        id: iv.id,
        row: g0.cursor_y,
        col: g0.cursor_x,
        pixel_width: iv.pixel_width,
        pixel_height: iv.pixel_height,
        rgba: iv.rgba,
    }));
    assert(grid@ =~= with_image(g0, iv));
    r
}

fn move_below(grid: &mut Grid, term_rows: usize)
    requires
        old(grid).wf(),
        old(grid)@.executor_ok(),
        old(grid)@.region_ok(),
        old(grid)@.cursor_y + term_rows <= usize::MAX,
    ensures
        final(grid).wf(),
        final(grid)@.executor_ok(),
        final(grid)@ == below_image(old(grid)@, term_rows as nat),
{
    let ghost g1 = grid@;
    let new_y = grid.cursor_y + term_rows;
    if new_y >= grid.rows {
        let n = new_y - grid.rows + 1;
        grid.scroll_up(n);
        proof {
            crate::grid::lemma_scroll_up_n_frame(g1, g1.scroll_count(n as nat));
        }
        grid.cursor_y = grid.rows - 1;
    } else {
        grid.cursor_y = new_y;
    }
    grid.cursor_x = 0;
    assert(grid@ =~= below_image(g1, term_rows as nat));
}

fn queue_reply(grid: &mut Grid, id: u32)
    ensures
        final(grid)@ == (GridModel { output_queue: old(grid)@.output_queue.push(ok_reply(id)), ..old(grid)@ }),
        final(grid).cells == old(grid).cells,
        final(grid).cols == old(grid).cols,
        final(grid).rows == old(grid).rows,
{
    let mut reply: Vec<u8> = vec![0x1bu8, 0x5f, 0x47, 0x61, 0x3d, 0x54];
    if id != 0 {
        reply.push(0x2c);
        reply.push(0x69);
        reply.push(0x3d);
        push_decimal(&mut reply, id as usize);
    }
    reply.push(0x3b);
    reply.push(0x4f);
    reply.push(0x4b);
    reply.push(0x1b);
    reply.push(0x5c);
    assert(reply@ =~= ok_reply(id));
    let ghost q = grid.output_queue@;
    grid.output_queue.push(reply);
    assert(grid.output_queue@.map_values(|b: Vec<u8>| b@) =~= q.map_values(|b: Vec<u8>| b@).push(ok_reply(id)));
    assert(grid@ =~= GridModel { output_queue: old(grid)@.output_queue.push(ok_reply(id)), ..old(grid)@ });
}

/// Place a decoded image that spans `term_rows` rows of text (see [`place_spec`]).
pub fn place_image(grid: &mut Grid, img: KittyImage, term_rows: usize)
    requires
        old(grid).wf(),
        old(grid)@.executor_ok(),
        old(grid)@.region_ok(),
        old(grid)@.cursor_y + term_rows <= usize::MAX,
    ensures
        final(grid).wf(),
        final(grid)@.executor_ok(),
        final(grid)@ == place_spec(old(grid)@, img@, term_rows as nat),
{
    let (id, quiet) = add_image(grid, img);
    move_below(grid, term_rows);
    if quiet < 2 {
        queue_reply(grid, id);
    }
}


/// A raw image (formats 32 and 24) decodes to exactly four bytes per pixel of its stated
/// size.
pub proof fn law_raw_image_size(chunks: Seq<Seq<u8>>, last: Seq<u8>, format: u32, width: u32, height: u32)
    requires
        format == 32 || format == 24,
        decode_image(chunks, last, format, width, height) is Some,
    ensures
        ({
            let (px, w, h) = decode_image(chunks, last, format, width, height).unwrap();
            w == width && h == height && px.len() == w * h * 4
        }),
{
    let raw = decoded_payload(joined_chunks(chunks) + last).unwrap();
    if format == 24 {
        assert(raw.len() == width * height * 3);
        assert((raw.len() / 3) * 4 == width * height * 4) by (nonlinear_arith)
            requires
                raw.len() == width * height * 3,
        ;
    }
}

pub open spec fn opt_bytes(o: Option<Vec<u8>>) -> Option<Seq<u8>> {
    match o {
        Some(v) => Some(v@),
        None => None,
    }
}

pub open spec fn apcs_view(v: Seq<Vec<u8>>) -> Seq<Seq<u8>> {
    v.map_values(|c: Vec<u8>| c@)
}

/// Pass a chunk of shell output through the splitter: the bytes for the terminal
/// parser and the completed APC contents (see [`apc_feed`]).
pub fn split_apc(state: &mut ApcState, bytes: &[u8]) -> (out: (Vec<u8>, Vec<Vec<u8>>))
    ensures
        (final(state)@, out.0@, apcs_view(out.1@)) == apc_feed(old(state)@, bytes@),
{
    let mut pass: Vec<u8> = Vec::new();
    let mut apcs: Vec<Vec<u8>> = Vec::new();
    let mut i: usize = 0;
    let ghost s0 = state@;
    assert(bytes@.take(0) =~= Seq::<u8>::empty());
    while i < bytes.len()
        invariant
            i <= bytes@.len(),
            (state@, pass@, apcs_view(apcs@)) == apc_feed(s0, bytes@.take(i as int)),
        decreases bytes@.len() - i,
    {
        let ghost before = (state@, pass@, apcs_view(apcs@));
        let (p, done) = state.advance(bytes[i]);
        let mut k: usize = 0;
        let ghost pb = pass@;
        while k < p.len()
            invariant
                k <= p@.len(),
                pass@ == pb + p@.take(k as int),
            decreases p@.len() - k,
        {
            pass.push(p[k]);
            k = k + 1;
            assert(pass@ =~= pb + p@.take(k as int));
        }
        assert(p@.take(p@.len() as int) =~= p@);
        let ghost ab = apcs_view(apcs@);
        let ghost dv = opt_bytes(done);
        match done {
            Some(c) => {
                apcs.push(c);
                assert(apcs_view(apcs@) =~= ab.push(dv.unwrap()));
            },
            None => {},
        }
        proof {
            let one = seq![bytes@[i as int]];
            assert(bytes@.take(i + 1) =~= bytes@.take(i as int) + one);
            law_apc_feed_concat(s0, bytes@.take(i as int), one);
            assert(one.drop_first() =~= Seq::<u8>::empty());
            assert(one[0] == bytes@[i as int]);
            let t1 = before.0;
            let st = apc_step(t1, one[0]);
            assert(st == (state@, p@, dv));
            assert(apc_feed(st.0, one.drop_first()) == (st.0, Seq::<u8>::empty(), Seq::<Seq<u8>>::empty()));
            assert(apc_feed(t1, one) == (state@, p@ + Seq::<u8>::empty(), match dv { Some(c) => seq![c] + Seq::<Seq<u8>>::empty(), None => Seq::<Seq<u8>>::empty() }));
            assert(p@ + Seq::<u8>::empty() =~= p@);
            match dv {
                Some(c) => {
                    assert(seq![c] + Seq::<Seq<u8>>::empty() =~= seq![c]);
                    assert(ab + seq![c] =~= ab.push(c));
                },
                None => {
                    assert(ab + Seq::<Seq<u8>>::empty() =~= ab);
                },
            }
        }
        i = i + 1;
    }
    assert(bytes@.take(bytes@.len() as int) =~= bytes@);
    (pass, apcs)
}

fn dims_ok_exec(format: u32, width: u32, height: u32) -> (r: bool)
    ensures
        r == image_dims_ok(format, width, height),
{
    if width == 0 || height == 0 {
        return true;
    }
    let w = width as u128;
    let h = height as u128;
    assert(w * h <= 0xFFFF_FFFFu128 * 0xFFFF_FFFFu128) by (nonlinear_arith)
        requires
            w <= 0xFFFF_FFFFu128,
            h <= 0xFFFF_FFFFu128,
    ;
    let n = w * h;
    if format == 32 {
        n * 4 <= 0xFFFF_FFFF
    } else if format == 24 {
        n * 3 <= 0xFFFF_FFFF
    } else {
        true
    }
}

/// Whether a graphics command can be applied (see [`kitty_stage_ok`]).
pub fn kitty_command_ok(content: &[u8], pending: &Option<PendingKittyImage>) -> (r: bool)
    ensures
        r == kitty_stage_ok(pending_view(*pending), content@),
{
    let cmd = match parse_kitty_apc(content) {
        Some(c) => c,
        None => return true,
    };
    if !((cmd.action == 0x54 || cmd.action == 0x74) && !cmd.more) {
        return true;
    }
    let (pf, pw, ph) = match pending {
        Some(p) => (p.format, p.width, p.height),
        None => (32u32, 0u32, 0u32),
    };
    let format = if cmd.format != 0 { cmd.format } else { pf };
    let width = if cmd.width != 0 { cmd.width } else { pw };
    let height = if cmd.height != 0 { cmd.height } else { ph };
    dims_ok_exec(format, width, height)
}

} // verus!
