//! Normalization of the comma-separated extension filter, and the
//! per-file eligibility test.
//!
//! The raw filter string is split on commas; each entry is trimmed of
//! whitespace, loses its leading dots, and is lowercased; empty results
//! are dropped.  An empty normalized filter admits every file.
//!
//! Entries are plain bytes, and trimming and lowercasing fold ASCII
//! only: bytes outside ASCII pass through unchanged, so an entry in
//! another script is matched exactly as written.

use vstd::prelude::*;

verus! {

/// ASCII whitespace, as trimmed from the ends of each filter entry.
pub open spec fn is_ascii_space(b: u8) -> bool {
    b == 32 || b == 9 || b == 10 || b == 13 || b == 11 || b == 12
}

/// ASCII lowercasing of a single byte; other bytes pass through unchanged.
pub open spec fn lower_byte(b: u8) -> u8 {
    if 65 <= b && b <= 90 {
        (b + 32) as u8
    } else {
        b
    }
}

/// ASCII lowercasing of a byte string.
pub open spec fn lower_bytes(s: Seq<u8>) -> Seq<u8> {
    s.map_values(|b: u8| lower_byte(b))
}

pub open spec fn trim_start(s: Seq<u8>) -> Seq<u8>
    decreases s.len(),
{
    if s.len() > 0 && is_ascii_space(s[0]) {
        trim_start(s.skip(1))
    } else {
        s
    }
}

pub open spec fn trim_end(s: Seq<u8>) -> Seq<u8>
    decreases s.len(),
{
    if s.len() > 0 && is_ascii_space(s.last()) {
        trim_end(s.drop_last())
    } else {
        s
    }
}

/// Both ends trimmed of ASCII whitespace.
pub open spec fn trim(s: Seq<u8>) -> Seq<u8> {
    trim_end(trim_start(s))
}

/// All leading dots removed.  Byte 46 is `.`.
pub open spec fn strip_leading_dots(s: Seq<u8>) -> Seq<u8>
    decreases s.len(),
{
    if s.len() > 0 && s[0] == 46 {
        strip_leading_dots(s.skip(1))
    } else {
        s
    }
}

/// What one raw filter entry normalizes to: trimmed, leading dots
/// stripped, lowercased.
pub open spec fn norm_token(s: Seq<u8>) -> Seq<u8> {
    lower_bytes(strip_leading_dots(trim(s)))
}

/// Index of the first comma (byte 44) in `s`, or `s.len()` if there is none.
pub open spec fn first_comma(s: Seq<u8>) -> int
    decreases s.len(),
{
    if s.len() == 0 {
        0
    } else if s[0] == 44 {
        0
    } else {
        1 + first_comma(s.skip(1))
    }
}

/// The normalized filter: the raw string split on commas, each entry
/// normalized, empty results dropped.
pub open spec fn spec_normalize(s: Seq<u8>) -> Seq<Seq<u8>>
    decreases s.len(),
{
    let i = first_comma(s);
    if 0 <= i < s.len() {
        let tok = norm_token(s.take(i));
        let rest = spec_normalize(s.skip(i + 1));
        if tok.len() == 0 {
            rest
        } else {
            seq![tok] + rest
        }
    } else {
        let tok = norm_token(s);
        if tok.len() == 0 {
            Seq::empty()
        } else {
            seq![tok]
        }
    }
}

/// The views of a sequence of byte vectors.
pub open spec fn byte_views(s: Seq<Vec<u8>>) -> Seq<Seq<u8>> {
    s.map_values(|v: Vec<u8>| v@)
}

/// Whether a file with extension `ext` (none for an extensionless file)
/// passes the normalized filter `filter`.
pub open spec fn spec_eligible(filter: Seq<Seq<u8>>, ext: Option<Seq<u8>>) -> bool {
    filter.len() == 0 || match ext {
        Some(e) => filter.contains(lower_bytes(e)),
        None => false,
    }
}

/// A filter entry that normalization leaves unchanged: nonempty, free
/// of commas, and a fixed point of per-entry normalization (no
/// whitespace at its ends, no leading dot, no ASCII uppercase).
pub open spec fn is_normal_token(t: Seq<u8>) -> bool {
    t.len() > 0 && (forall|i: int| 0 <= i < t.len() ==> t[i] != 44) && norm_token(t) == t
}

/// The entries joined back into one comma-separated string.
pub open spec fn join_commas(toks: Seq<Seq<u8>>) -> Seq<u8>
    decreases toks.len(),
{
    if toks.len() == 0 {
        Seq::empty()
    } else if toks.len() == 1 {
        toks[0]
    } else {
        toks[0] + seq![44u8] + join_commas(toks.skip(1))
    }
}

proof fn lemma_first_comma_at(s: Seq<u8>, k: int)
    requires
        0 <= k <= s.len(),
        forall|m: int| 0 <= m < k ==> s[m] != 44,
        k == s.len() || s[k] == 44,
    ensures
        first_comma(s) == k,
    decreases k,
{
    if k == 0 {
    } else {
        lemma_first_comma_at(s.skip(1), k - 1);
    }
}

proof fn lemma_trim_start_skip(s: Seq<u8>, k: int)
    requires
        0 <= k <= s.len(),
        forall|m: int| 0 <= m < k ==> is_ascii_space(s[m]),
        k == s.len() || !is_ascii_space(s[k]),
    ensures
        trim_start(s) == s.skip(k),
    decreases k,
{
    if k == 0 {
        assert(s.skip(0) =~= s);
    } else {
        lemma_trim_start_skip(s.skip(1), k - 1);
        assert(s.skip(1).skip(k - 1) =~= s.skip(k));
    }
}

proof fn lemma_trim_end_take(s: Seq<u8>, k: int)
    requires
        0 <= k <= s.len(),
        forall|m: int| k <= m < s.len() ==> is_ascii_space(s[m]),
        k == 0 || !is_ascii_space(s[k - 1]),
    ensures
        trim_end(s) == s.take(k),
    decreases s.len(),
{
    if k == s.len() {
        assert(s.take(k) =~= s);
    } else {
        assert(is_ascii_space(s.last()));
        lemma_trim_end_take(s.drop_last(), k);
        assert(s.drop_last() =~= s.take(s.len() - 1));
        assert(s.take(s.len() - 1).take(k) =~= s.take(k));
    }
}

proof fn lemma_strip_dots_skip(s: Seq<u8>, k: int)
    requires
        0 <= k <= s.len(),
        forall|m: int| 0 <= m < k ==> s[m] == 46,
        k == s.len() || s[k] != 46,
    ensures
        strip_leading_dots(s) == s.skip(k),
    decreases k,
{
    if k == 0 {
        assert(s.skip(0) =~= s);
    } else {
        lemma_strip_dots_skip(s.skip(1), k - 1);
        assert(s.skip(1).skip(k - 1) =~= s.skip(k));
    }
}

proof fn lemma_first_comma_props(s: Seq<u8>)
    ensures
        0 <= first_comma(s) <= s.len(),
        forall|m: int| 0 <= m < first_comma(s) ==> s[m] != 44,
        first_comma(s) < s.len() ==> s[first_comma(s)] == 44,
    decreases s.len(),
{
    if s.len() == 0 || s[0] == 44 {
    } else {
        lemma_first_comma_props(s.skip(1));
        assert(forall|m: int| 1 <= m < first_comma(s) ==> s[m] == s.skip(1)[m - 1]);
    }
}

proof fn lemma_all_space_norm_empty(s: Seq<u8>)
    requires
        forall|i: int| 0 <= i < s.len() ==> is_ascii_space(#[trigger] s[i]),
    ensures
        norm_token(s).len() == 0,
{
    lemma_trim_start_skip(s, s.len() as int);
    assert(s.skip(s.len() as int) =~= Seq::<u8>::empty());
    assert(trim(s) =~= Seq::<u8>::empty());
}

/// Normalizing is idempotent: a filter whose entries are already in
/// normal form normalizes to exactly those entries again.
pub proof fn lemma_normalize_idempotent(toks: Seq<Seq<u8>>)
    requires
        forall|i: int| 0 <= i < toks.len() ==> is_normal_token(#[trigger] toks[i]),
    ensures
        spec_normalize(join_commas(toks)) == toks,
    decreases toks.len(),
{
    let s = join_commas(toks);
    if toks.len() == 0 {
        lemma_all_space_norm_empty(s);
        assert(first_comma(s) == 0);
        assert(spec_normalize(s) =~= toks);
    } else if toks.len() == 1 {
        let t = toks[0];
        assert(is_normal_token(t));
        lemma_first_comma_at(t, t.len() as int);
        assert(spec_normalize(s) =~= toks);
    } else {
        let t = toks[0];
        assert(is_normal_token(t));
        let rest = join_commas(toks.skip(1));
        assert(s == t + seq![44u8] + rest);
        assert(forall|m: int| 0 <= m < t.len() ==> s[m] == t[m] && s[m] != 44);
        assert(s[t.len() as int] == 44);
        lemma_first_comma_at(s, t.len() as int);
        assert(s.take(t.len() as int) =~= t);
        assert(s.skip(t.len() as int + 1) =~= rest);
        lemma_normalize_idempotent(toks.skip(1));
        assert(spec_normalize(s) == seq![t] + toks.skip(1));
        assert(seq![t] + toks.skip(1) =~= toks);
    }
}

/// A blank filter string — empty, or nothing but whitespace and commas —
/// normalizes to the empty filter, and the empty filter admits every
/// file, extension or none.
pub proof fn lemma_blank_filter_admits_all(s: Seq<u8>, ext: Option<Seq<u8>>)
    requires
        forall|i: int| 0 <= i < s.len() ==> is_ascii_space(#[trigger] s[i]) || s[i] == 44,
    ensures
        spec_normalize(s).len() == 0,
        spec_eligible(spec_normalize(s), ext),
    decreases s.len(),
{
    let i = first_comma(s);
    lemma_first_comma_props(s);
    if 0 <= i < s.len() {
        assert(forall|m: int| 0 <= m < i ==> is_ascii_space(#[trigger] s.take(i)[m]));
        lemma_all_space_norm_empty(s.take(i));
        assert(forall|m: int|
            0 <= m < s.skip(i + 1).len() ==> is_ascii_space(#[trigger] s.skip(i + 1)[m])
                || s.skip(i + 1)[m] == 44);
        lemma_blank_filter_admits_all(s.skip(i + 1), ext);
    } else {
        assert(forall|m: int| 0 <= m < s.len() ==> is_ascii_space(#[trigger] s[m]));
        lemma_all_space_norm_empty(s);
    }
}

fn is_space_byte(b: u8) -> (r: bool)
    ensures
        r == is_ascii_space(b),
{
    b == 32 || b == 9 || b == 10 || b == 13 || b == 11 || b == 12
}

fn lower_byte_exec(b: u8) -> (r: u8)
    ensures
        r == lower_byte(b),
{
    if 65 <= b && b <= 90 {
        b + 32
    } else {
        b
    }
}

/// Normalizes the raw filter entry `s[start..end]`.
fn normalize_entry(s: &Vec<u8>, start: usize, end: usize) -> (r: Vec<u8>)
    requires
        start <= end <= s.len(),
    ensures
        r@ == norm_token(s@.subrange(start as int, end as int)),
{
    let ghost entry = s@.subrange(start as int, end as int);
    let mut a = start;
    while a < end && is_space_byte(s[a])
        invariant
            start <= a <= end <= s.len(),
            forall|m: int| start <= m < a ==> is_ascii_space(s@[m]),
        decreases end - a,
    {
        a = a + 1;
    }
    proof {
        lemma_trim_start_skip(entry, a - start);
        assert(entry.skip(a - start) =~= s@.subrange(a as int, end as int));
    }
    let mut b = end;
    while b > a && is_space_byte(s[b - 1])
        invariant
            a <= b <= end <= s.len(),
            forall|m: int| b <= m < end ==> is_ascii_space(s@[m]),
        decreases b,
    {
        b = b - 1;
    }
    proof {
        lemma_trim_end_take(s@.subrange(a as int, end as int), b - a);
        assert(s@.subrange(a as int, end as int).take(b - a) =~= s@.subrange(
            a as int,
            b as int,
        ));
        assert(trim(entry) == s@.subrange(a as int, b as int));
    }
    let ghost trimmed = s@.subrange(a as int, b as int);
    let start_of_dots = a;
    while a < b && s[a] == 46
        invariant
            start_of_dots <= a <= b <= s.len(),
            forall|m: int| start_of_dots <= m < a ==> s@[m] == 46,
        decreases b - a,
    {
        a = a + 1;
    }
    proof {
        lemma_strip_dots_skip(trimmed, a - start_of_dots);
        assert(trimmed.skip(a - start_of_dots) =~= s@.subrange(a as int, b as int));
    }
    let ghost stripped = strip_leading_dots(trim(entry));
    assert(stripped == s@.subrange(a as int, b as int));
    let mut out: Vec<u8> = Vec::new();
    let mut i = a;
    while i < b
        invariant
            a <= i <= b <= s.len(),
            stripped == s@.subrange(a as int, b as int),
            out@ == lower_bytes(s@.subrange(a as int, i as int)),
        decreases b - i,
    {
        out.push(lower_byte_exec(s[i]));
        i = i + 1;
        proof {
            assert(out@ =~= lower_bytes(s@.subrange(a as int, i as int)));
        }
    }
    proof {
        assert(s@.subrange(a as int, b as int) =~= s@.subrange(a as int, i as int));
    }
    out
}

/// Splits the raw filter string on commas and normalizes each entry,
/// dropping the entries that normalize to nothing.
pub fn normalize_extensions(raw: &Vec<u8>) -> (r: Vec<Vec<u8>>)
    ensures
        byte_views(r@) == spec_normalize(raw@),
{
    let mut out: Vec<Vec<u8>> = Vec::new();
    let mut pos: usize = 0;
    proof {
        assert(raw@.skip(0) =~= raw@);
        assert(byte_views(out@) =~= Seq::<Seq<u8>>::empty());
        assert(byte_views(out@) + spec_normalize(raw@) =~= spec_normalize(raw@));
    }
    loop
        invariant_except_break
            pos <= raw.len(),
            spec_normalize(raw@) == byte_views(out@) + spec_normalize(raw@.skip(pos as int)),
        ensures
            spec_normalize(raw@) == byte_views(out@),
        decreases raw.len() - pos,
    {
        let ghost rest = raw@.skip(pos as int);
        let mut j = pos;
        while j < raw.len() && raw[j] != 44
            invariant
                pos <= j <= raw.len(),
                forall|m: int| pos <= m < j ==> raw@[m] != 44,
            decreases raw.len() - j,
        {
            j = j + 1;
        }
        proof {
            assert(forall|m: int|
                0 <= m < j - pos ==> rest[m] == raw@[m + pos] && rest[m] != 44);
            lemma_first_comma_at(rest, j - pos);
        }
        let tok = normalize_entry(raw, pos, j);
        proof {
            assert(rest.take(j - pos) =~= raw@.subrange(pos as int, j as int));
        }
        let keep = tok.len() > 0;
        let ghost old_out = out@;
        if keep {
            out.push(tok);
            proof {
                assert(byte_views(out@) =~= byte_views(old_out).push(tok@));
            }
        }
        if j == raw.len() {
            proof {
                assert(rest =~= raw@.subrange(pos as int, j as int));
                assert(tok@ == norm_token(rest));
                if keep {
                    assert(byte_views(out@) =~= byte_views(old_out) + seq![tok@]);
                } else {
                    assert(byte_views(out@) + Seq::<Seq<u8>>::empty() =~= byte_views(out@));
                }
            }
            break;
        }
        proof {
            assert(rest.skip(j - pos + 1) =~= raw@.skip(j + 1));
            if keep {
                assert(byte_views(old_out).push(tok@) =~= byte_views(old_out) + seq![tok@]);
                assert(byte_views(old_out) + (seq![tok@] + spec_normalize(raw@.skip(j + 1)))
                    =~= (byte_views(old_out) + seq![tok@]) + spec_normalize(
                    raw@.skip(j + 1),
                ));
            }
        }
        pos = j + 1;
    }
    out
}

/// Compares two byte vectors for equality of contents.
pub fn bytes_eq(x: &Vec<u8>, y: &Vec<u8>) -> (r: bool)
    ensures
        r == (x@ == y@),
{
    if x.len() != y.len() {
        return false;
    }
    let mut i: usize = 0;
    while i < x.len()
        invariant
            i <= x.len() == y.len(),
            forall|m: int| 0 <= m < i ==> x@[m] == y@[m],
        decreases x.len() - i,
    {
        if x[i] != y[i] {
            return false;
        }
        i = i + 1;
    }
    proof {
        assert(x@ =~= y@);
    }
    true
}

/// ASCII-lowercases a whole byte vector.
pub fn lower_bytes_exec(s: &Vec<u8>) -> (r: Vec<u8>)
    ensures
        r@ == lower_bytes(s@),
{
    let mut out: Vec<u8> = Vec::new();
    let mut i: usize = 0;
    while i < s.len()
        invariant
            i <= s.len(),
            out@ == lower_bytes(s@.subrange(0, i as int)),
        decreases s.len() - i,
    {
        out.push(lower_byte_exec(s[i]));
        i = i + 1;
        proof {
            assert(out@ =~= lower_bytes(s@.subrange(0, i as int)));
        }
    }
    proof {
        assert(s@.subrange(0, s@.len() as int) =~= s@);
    }
    out
}

/// Decides whether a file whose extension is `ext` passes the normalized
/// filter: an empty filter admits every file, and otherwise the
/// lowercased extension must be one of the filter's entries.
pub fn is_eligible(filter: &Vec<Vec<u8>>, ext: Option<&Vec<u8>>) -> (r: bool)
    ensures
        r == spec_eligible(
            byte_views(filter@),
            match ext {
                Some(e) => Some(e@),
                None => None,
            },
        ),
{
    if filter.len() == 0 {
        return true;
    }
    match ext {
        None => false,
        Some(e) => {
            let lowered = lower_bytes_exec(e);
            let mut i: usize = 0;
            while i < filter.len()
                invariant
                    i <= filter.len(),
                    ext == Some(e),
                    lowered@ == lower_bytes(e@),
                    forall|m: int| 0 <= m < i ==> byte_views(filter@)[m] != lowered@,
                decreases filter.len() - i,
            {
                if bytes_eq(&filter[i], &lowered) {
                    proof {
                        assert(byte_views(filter@)[i as int] == lower_bytes(e@));
                        assert(byte_views(filter@).contains(lower_bytes(e@)));
                        assert(spec_eligible(byte_views(filter@), Some(e@)));
                    }
                    return true;
                }
                i = i + 1;
            }
            assert(!byte_views(filter@).contains(lower_bytes(e@)));
            false
        },
    }
}

} // verus!
