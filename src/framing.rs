use vstd::prelude::*;

use crate::bytes::copy_range;
use crate::error::{ErrorView, ObjectError};

verus! {

/// The payload kinds this store understands.
#[derive(Debug, Clone, Copy, PartialEq, Eq, Structural)]
pub enum Kind {
    /// Opaque file content.
    Blob,
}

/// The header token of a kind, as ASCII bytes.
pub open spec fn kind_token(k: Kind) -> Seq<u8> {
    match k {
        Kind::Blob => seq![98u8, 108u8, 111u8, 98u8],
    }
}

/// The kind named by a header token, if any.
pub open spec fn kind_of_token(t: Seq<u8>) -> Option<Kind> {
    if t == kind_token(Kind::Blob) {
        Some(Kind::Blob)
    } else {
        None
    }
}

/// The decimal ASCII rendering of `n`, without leading zeros.
pub open spec fn decimal(n: nat) -> Seq<u8>
    decreases n,
{
    if n < 10 {
        seq![(48 + n) as u8]
    } else {
        decimal(n / 10).push((48 + n % 10) as u8)
    }
}

pub open spec fn is_digit(c: u8) -> bool {
    48 <= c <= 57
}

/// The value of a run of decimal digits.
pub open spec fn digits_value(s: Seq<u8>) -> nat
    decreases s.len(),
{
    if s.len() == 0 {
        0
    } else {
        digits_value(s.drop_last()) * 10 + (s.last() - 48) as nat
    }
}

/// The size a header token declares: a non-empty run of decimal digits.
pub open spec fn size_of_token(s: Seq<u8>) -> Option<nat> {
    if s.len() > 0 && forall|i: int| 0 <= i < s.len() ==> is_digit(#[trigger] s[i]) {
        Some(digits_value(s))
    } else {
        None
    }
}

/// The canonical header `<kind> <size>\0`.
pub open spec fn header_bytes(k: Kind, size: nat) -> Seq<u8> {
    kind_token(k) + seq![32u8] + decimal(size) + seq![0u8]
}

/// The full uncompressed object: header followed by content.
pub open spec fn object_bytes(k: Kind, content: Seq<u8>) -> Seq<u8> {
    header_bytes(k, content.len()) + content
}

/// `i` is the position of the first `b` in `s`.
pub open spec fn is_first(s: Seq<u8>, b: u8, i: int) -> bool {
    0 <= i < s.len() && s[i] == b && forall|j: int| 0 <= j < i ==> #[trigger] s[j] != b
}

/// The position of the first `b` in `s`, if there is one.
pub open spec fn first_index(s: Seq<u8>, b: u8) -> Option<int> {
    if exists|i: int| is_first(s, b, i) {
        Some(choose|i: int| is_first(s, b, i))
    } else {
        None
    }
}

/// What decoding the uncompressed bytes of a stored object yields.
pub open spec fn parse_spec(raw: Seq<u8>) -> Result<(Kind, Seq<u8>), ErrorView> {
    match first_index(raw, 0) {
        None => Err(ErrorView::CorruptObject),
        Some(n) => {
            let header = raw.subrange(0, n);
            let body = raw.subrange(n + 1, raw.len() as int);
            match first_index(header, 32) {
                None => Err(ErrorView::CorruptObject),
                Some(sp) => {
                    let token = header.subrange(0, sp);
                    let size = header.subrange(sp + 1, n);
                    match kind_of_token(token) {
                        None => Err(ErrorView::UnknownKind(token)),
                        Some(k) => match size_of_token(size) {
                            None => Err(ErrorView::CorruptObject),
                            Some(v) => if v > usize::MAX {
                                Err(ErrorView::CorruptObject)
                            } else if body.len() < v {
                                Err(ErrorView::TruncatedObject)
                            } else if body.len() > v {
                                Err(ErrorView::TrailingData)
                            } else {
                                Ok((k, body))
                            },
                        },
                    }
                },
            }
        },
    }
}

/// An executable decoding result agrees with its mathematical value.
pub open spec fn decoded_as(
    r: Result<(Kind, Vec<u8>), ObjectError>,
    s: Result<(Kind, Seq<u8>), ErrorView>,
) -> bool {
    match r {
        Ok((k, c)) => s == Ok::<(Kind, Seq<u8>), ErrorView>((k, c@)),
        Err(e) => s == Err::<(Kind, Seq<u8>), ErrorView>(e@),
    }
}

proof fn lemma_first_at(s: Seq<u8>, b: u8, i: int)
    requires
        is_first(s, b, i),
    ensures
        first_index(s, b) == Some(i),
{
    let k = choose|k: int| is_first(s, b, k);
    assert(is_first(s, b, k));
    if k < i {
        assert(s[k] != b);
    } else if k > i {
        assert(s[i] != b);
    }
}

proof fn lemma_decimal(n: nat)
    ensures
        decimal(n).len() >= 1,
        forall|i: int| 0 <= i < decimal(n).len() ==> is_digit(#[trigger] decimal(n)[i]),
        digits_value(decimal(n)) == n,
    decreases n,
{
    if n < 10 {
        assert(decimal(n).drop_last() =~= Seq::<u8>::empty());
        assert(decimal(n).last() == (48 + n) as u8);
        assert(digits_value(Seq::<u8>::empty()) == 0);
    } else {
        lemma_decimal(n / 10);
        let p = decimal(n / 10);
        assert(decimal(n).drop_last() =~= p);
        assert forall|i: int| 0 <= i < decimal(n).len() implies is_digit(#[trigger] decimal(n)[i]) by {
            if i < p.len() {
                assert(decimal(n)[i] == p[i]);
            }
        }
        assert(decimal(n).last() == (48 + n % 10) as u8);
        assert((decimal(n).last() - 48) as nat == n % 10);
        vstd::arithmetic::div_mod::lemma_fundamental_div_mod(n as int, 10);
        assert(digits_value(decimal(n)) == digits_value(p) * 10 + n % 10);
    }
}

proof fn lemma_digits_prefix(s: Seq<u8>, i: int)
    requires
        0 <= i <= s.len(),
    ensures
        digits_value(s) >= digits_value(s.subrange(0, i)),
    decreases s.len(),
{
    if i == s.len() {
        assert(s.subrange(0, i) =~= s);
    } else {
        lemma_digits_prefix(s.drop_last(), i);
        assert(s.drop_last().subrange(0, i) =~= s.subrange(0, i));
    }
}

/// Decoding a header that declares `size`, followed by `body`, checks the
/// body against the declared size and nothing else.
pub proof fn lemma_parse_framed(k: Kind, size: nat, body: Seq<u8>)
    requires
        size <= usize::MAX,
    ensures
        parse_spec(header_bytes(k, size) + body) == (if body.len() < size {
            Err::<(Kind, Seq<u8>), ErrorView>(ErrorView::TruncatedObject)
        } else if body.len() > size {
            Err(ErrorView::TrailingData)
        } else {
            Ok((k, body))
        }),
{
    let tok = kind_token(k);
    let dec = decimal(size);
    lemma_decimal(size);
    let raw = header_bytes(k, size) + body;
    let n: int = (tok.len() + 1 + dec.len()) as int;
    let header = tok + seq![32u8] + dec;
    assert(raw =~= header + seq![0u8] + body);
    assert forall|j: int| 0 <= j < n implies #[trigger] raw[j] != 0u8 by {
        assert(raw[j] == header[j]);
        if j >= tok.len() + 1 {
            assert(header[j] == dec[j - tok.len() - 1]);
        }
    }
    assert(raw[n] == 0u8);
    lemma_first_at(raw, 0u8, n);
    assert(raw.subrange(0, n) =~= header);
    assert(raw.subrange(n + 1, raw.len() as int) =~= body);
    assert forall|j: int| 0 <= j < 4 implies #[trigger] header[j] != 32u8 by {
        assert(header[j] == tok[j]);
    }
    lemma_first_at(header, 32u8, 4);
    assert(header.subrange(0, 4) =~= tok);
    assert(header.subrange(5, n) =~= dec);
}

/// Decoding an encoded object gives back its kind and content.
pub proof fn lemma_round_trip(k: Kind, content: Seq<u8>)
    requires
        content.len() <= usize::MAX,
    ensures
        parse_spec(object_bytes(k, content)) == Ok::<(Kind, Seq<u8>), ErrorView>((k, content)),
{
    lemma_parse_framed(k, content.len(), content);
}

/// A header that declares more bytes than follow it is a truncated object.
pub proof fn lemma_declared_too_long(k: Kind, size: nat, body: Seq<u8>)
    requires
        body.len() < size <= usize::MAX,
    ensures
        parse_spec(header_bytes(k, size) + body) == Err::<(Kind, Seq<u8>), ErrorView>(
            ErrorView::TruncatedObject,
        ),
{
    lemma_parse_framed(k, size, body);
}

/// Any bytes after the declared content make the object carry trailing data.
pub proof fn lemma_extra_bytes(k: Kind, content: Seq<u8>, extra: Seq<u8>)
    requires
        content.len() <= usize::MAX,
        extra.len() > 0,
    ensures
        parse_spec(object_bytes(k, content) + extra) == Err::<(Kind, Seq<u8>), ErrorView>(
            ErrorView::TrailingData,
        ),
{
    assert(object_bytes(k, content) + extra =~= header_bytes(k, content.len()) + (content + extra));
    lemma_parse_framed(k, content.len(), content + extra);
}

fn push_decimal(out: &mut Vec<u8>, n: usize)
    ensures
        final(out)@ == old(out)@ + decimal(n as nat),
    decreases n,
{
    let ghost before = out@;
    if n >= 10 {
        push_decimal(out, n / 10);
    }
    out.push(48u8 + (n % 10) as u8);
    assert(out@ =~= before + decimal(n as nat));
}

/// The canonical header of an object of kind `k` with `size` content bytes.
pub fn header(k: Kind, size: usize) -> (r: Vec<u8>)
    ensures
        r@ == header_bytes(k, size as nat),
{
    let mut out: Vec<u8> = Vec::new();
    match k {
        Kind::Blob => {
            out.push(98u8);
            out.push(108u8);
            out.push(111u8);
            out.push(98u8);
        },
    }
    out.push(32u8);
    push_decimal(&mut out, size);
    out.push(0u8);
    assert(out@ =~= header_bytes(k, size as nat));
    out
}

fn find_first(s: &[u8], end: usize, b: u8) -> (r: Option<usize>)
    requires
        end <= s@.len(),
    ensures
        match r {
            Some(i) => first_index(s@.subrange(0, end as int), b) == Some(i as int),
            None => first_index(s@.subrange(0, end as int), b) is None,
        },
{
    let ghost sub = s@.subrange(0, end as int);
    let mut i: usize = 0;
    while i < end
        invariant
            i <= end <= s@.len(),
            sub == s@.subrange(0, end as int),
            forall|j: int| 0 <= j < i ==> #[trigger] sub[j] != b,
        decreases end - i,
    {
        if s[i] == b {
            proof {
                lemma_first_at(sub, b, i as int);
            }
            return Some(i);
        }
        i = i + 1;
    }
    proof {
        if exists|k: int| is_first(sub, b, k) {
            let k = choose|k: int| is_first(sub, b, k);
            assert(sub[k] != b);
        }
    }
    None
}

fn kind_from_token(raw: &[u8], end: usize) -> (r: Option<Kind>)
    requires
        end <= raw@.len(),
    ensures
        r == kind_of_token(raw@.subrange(0, end as int)),
{
    let ghost t = raw@.subrange(0, end as int);
    if end == 4 && raw[0] == 98u8 && raw[1] == 108u8 && raw[2] == 111u8 && raw[3] == 98u8 {
        assert(t =~= kind_token(Kind::Blob));
        Some(Kind::Blob)
    } else {
        proof {
            if t == kind_token(Kind::Blob) {
                assert(t.len() == 4);
                assert(t[0] == raw@[0] && t[1] == raw@[1] && t[2] == raw@[2] && t[3] == raw@[3]);
                assert(t[0] == 98u8 && t[1] == 108u8 && t[2] == 111u8 && t[3] == 98u8);
            }
        }
        None
    }
}

fn parse_size(raw: &[u8], from: usize, to: usize) -> (r: Option<usize>)
    requires
        from <= to <= raw@.len(),
    ensures
        match r {
            Some(v) => size_of_token(raw@.subrange(from as int, to as int)) == Some(v as nat),
            None => match size_of_token(raw@.subrange(from as int, to as int)) {
                None => true,
                Some(v) => v > usize::MAX,
            },
        },
{
    let ghost s = raw@.subrange(from as int, to as int);
    if from == to {
        return None;
    }
    let mut v: usize = 0;
    let mut i: usize = from;
    while i < to
        invariant
            from <= i <= to <= raw@.len(),
            s == raw@.subrange(from as int, to as int),
            forall|j: int| from <= j < i ==> is_digit(#[trigger] raw@[j]),
            v as nat == digits_value(raw@.subrange(from as int, i as int)),
        decreases to - i,
    {
        let c = raw[i];
        if c < 48u8 || c > 57u8 {
            assert(!is_digit(s[i - from]));
            return None;
        }
        let d: usize = (c - 48u8) as usize;
        let ghost next = raw@.subrange(from as int, i + 1);
        assert(next.drop_last() =~= raw@.subrange(from as int, i as int));
        if v > (usize::MAX - d) / 10 {
            proof {
                assert(v * 10 + d > usize::MAX) by (nonlinear_arith)
                    requires
                        v > (usize::MAX - d) / 10,
                        d <= 9,
                ;
                assert(s.subrange(0, i + 1 - from) =~= next);
                lemma_digits_prefix(s, i + 1 - from);
            }
            return None;
        }
        v = v * 10 + d;
        i = i + 1;
    }
    assert(raw@.subrange(from as int, i as int) =~= s);
    assert forall|j: int| 0 <= j < s.len() implies is_digit(#[trigger] s[j]) by {
        assert(s[j] == raw@[from + j]);
    }
    Some(v)
}

/// Decodes the uncompressed bytes of a stored object: the header up to the
/// first NUL, split at its first space into kind and size, then exactly
/// `size` content bytes and nothing after them.
pub fn parse_object(raw: &[u8]) -> (r: Result<(Kind, Vec<u8>), ObjectError>)
    ensures
        decoded_as(r, parse_spec(raw@)),
{
    assert(raw@.subrange(0, raw@.len() as int) =~= raw@);
    let n = match find_first(raw, raw.len(), 0u8) {
        None => return Err(ObjectError::CorruptObject),
        Some(n) => n,
    };
    let ghost header = raw@.subrange(0, n as int);
    let sp = match find_first(raw, n, 32u8) {
        None => return Err(ObjectError::CorruptObject),
        Some(sp) => sp,
    };
    assert(header.subrange(0, sp as int) =~= raw@.subrange(0, sp as int));
    assert(header.subrange(sp + 1, n as int) =~= raw@.subrange(sp + 1, n as int));
    let kind = match kind_from_token(raw, sp) {
        None => return Err(ObjectError::UnknownKind(copy_range(raw, 0, sp))),
        Some(k) => k,
    };
    let size = match parse_size(raw, sp + 1, n) {
        None => return Err(ObjectError::CorruptObject),
        Some(v) => v,
    };
    let available = raw.len() - (n + 1);
    if available < size {
        Err(ObjectError::TruncatedObject)
    } else if available > size {
        Err(ObjectError::TrailingData)
    } else {
        Ok((kind, copy_range(raw, n + 1, raw.len())))
    }
}

} // verus!
