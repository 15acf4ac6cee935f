//! File names: splitting a base name into stem and extension, and
//! building the counter-suffixed candidate names used to avoid
//! collisions in the destination directory.
//!
//! A base name is a plain byte string, so a stem can always be
//! determined from it; no fallback stem for an undecodable name is
//! needed here.  A name the caller could not determine at all is a
//! different matter and is reported through `SkippedInvalidName`.

use vstd::prelude::*;

verus! {

/// Index of the last dot (byte 46) in `s`, or -1 if there is none.
pub open spec fn last_dot(s: Seq<u8>) -> int
    decreases s.len(),
{
    if s.len() == 0 {
        -1
    } else if s.last() == 46 {
        s.len() - 1
    } else {
        last_dot(s.drop_last())
    }
}

/// The extension of a base name: what follows the last dot, provided
/// that dot is not the name's first byte.  A name with no dot, and a
/// dotfile such as `.config` whose only dot leads, have none.
pub open spec fn spec_ext(name: Seq<u8>) -> Option<Seq<u8>> {
    let i = last_dot(name);
    if i > 0 {
        Some(name.skip(i + 1))
    } else {
        None
    }
}

/// The stem of a base name: what precedes the last dot when the name
/// has an extension, the whole name otherwise.
pub open spec fn spec_stem(name: Seq<u8>) -> Seq<u8> {
    let i = last_dot(name);
    if i > 0 {
        name.take(i)
    } else {
        name
    }
}

/// The decimal digits of `n`, most significant first.
pub open spec fn spec_dec(n: nat) -> Seq<u8>
    decreases n,
{
    if n < 10 {
        seq![(48 + n) as u8]
    } else {
        spec_dec(n / 10) + seq![(48 + n % 10) as u8]
    }
}

/// The candidate destination name for a given probe counter: the base
/// name itself for counter 0, and `{stem}_{counter}.{ext}` (or
/// `{stem}_{counter}` for an extensionless name) afterwards.  Byte 95
/// is `_` and byte 46 is `.`.
pub open spec fn spec_candidate(name: Seq<u8>, counter: nat) -> Seq<u8> {
    if counter == 0 {
        name
    } else {
        match spec_ext(name) {
            Some(e) => spec_stem(name) + seq![95u8] + spec_dec(counter) + seq![46u8] + e,
            None => spec_stem(name) + seq![95u8] + spec_dec(counter),
        }
    }
}

/// Index of the first `false` in a sequence of existence observations,
/// or its length if every probe found an existing entry.
pub open spec fn first_free(obs: Seq<bool>) -> int
    decreases obs.len(),
{
    if obs.len() == 0 {
        0
    } else if !obs[0] {
        0
    } else {
        1 + first_free(obs.skip(1))
    }
}

pub proof fn lemma_first_free_at(obs: Seq<bool>, k: int)
    requires
        0 <= k <= obs.len(),
        forall|m: int| 0 <= m < k ==> obs[m],
        k == obs.len() || !obs[k],
    ensures
        first_free(obs) == k,
    decreases k,
{
    if k == 0 {
    } else {
        lemma_first_free_at(obs.skip(1), k - 1);
    }
}

/// The counter the collision probe settles on is minimal: every earlier
/// candidate was observed to exist, the chosen one was not, and no index
/// below the chosen one could have been free.
pub proof fn lemma_resolved_counter_minimal(obs: Seq<bool>, k: int)
    requires
        0 <= k < obs.len(),
        !obs[k],
    ensures
        0 <= first_free(obs) <= k,
        !obs[first_free(obs)],
        forall|j: int| 0 <= j < first_free(obs) ==> obs[j],
    decreases obs.len(),
{
    if !obs[0] {
    } else {
        lemma_resolved_counter_minimal(obs.skip(1), k - 1);
        assert(forall|j: int| 1 <= j < first_free(obs) ==> obs[j] == obs.skip(1)[j - 1]);
    }
}

proof fn lemma_last_dot_at(s: Seq<u8>, k: int)
    requires
        0 <= k < s.len(),
        s[k] == 46,
        forall|m: int| k < m < s.len() ==> s[m] != 46,
    ensures
        last_dot(s) == k,
    decreases s.len(),
{
    if k == s.len() - 1 {
    } else {
        assert(s.last() != 46);
        lemma_last_dot_at(s.drop_last(), k);
    }
}

proof fn lemma_last_dot_none(s: Seq<u8>)
    requires
        forall|m: int| 0 <= m < s.len() ==> s[m] != 46,
    ensures
        last_dot(s) == -1,
    decreases s.len(),
{
    if s.len() > 0 {
        lemma_last_dot_none(s.drop_last());
    }
}

/// Splits a base name into its stem and, when it has one, its extension.
pub fn split_file_name(name: &Vec<u8>) -> (r: (Vec<u8>, Option<Vec<u8>>))
    ensures
        r.0@ == spec_stem(name@),
        r.1 is Some <==> spec_ext(name@) is Some,
        r.1 is Some ==> r.1->0@ == spec_ext(name@)->0,
{
    let mut j = name.len();
    while j > 0 && name[j - 1] != 46
        invariant
            j <= name.len(),
            forall|m: int| j <= m < name.len() ==> name@[m] != 46,
        decreases j,
    {
        j = j - 1;
    }
    if j > 1 {
        // The dot at j - 1 is the last one and is not the first byte.
        proof {
            lemma_last_dot_at(name@, j - 1);
        }
        let stem = copy_range(name, 0, j - 1);
        let ext = copy_range(name, j, name.len());
        proof {
            assert(name@.subrange(0, j - 1) =~= name@.take(j - 1));
            assert(name@.subrange(j as int, name@.len() as int) =~= name@.skip(j as int));
        }
        (stem, Some(ext))
    } else {
        proof {
            if j == 1 {
                lemma_last_dot_at(name@, 0);
            } else {
                lemma_last_dot_none(name@);
            }
        }
        let stem = copy_range(name, 0, name.len());
        proof {
            assert(name@.subrange(0, name@.len() as int) =~= name@);
        }
        (stem, None)
    }
}

/// Copies the bytes `s[start..end]` into a fresh vector.
pub fn copy_range(s: &Vec<u8>, start: usize, end: usize) -> (r: Vec<u8>)
    requires
        start <= end <= s.len(),
    ensures
        r@ == s@.subrange(start as int, end as int),
{
    let mut out: Vec<u8> = Vec::new();
    let mut i = start;
    while i < end
        invariant
            start <= i <= end <= s.len(),
            out@ == s@.subrange(start as int, i as int),
        decreases end - i,
    {
        out.push(s[i]);
        i = i + 1;
        proof {
            assert(out@ =~= s@.subrange(start as int, i as int));
        }
    }
    out
}

/// Renders `n` in decimal, most significant digit first.
pub fn u64_to_decimal(n: u64) -> (r: Vec<u8>)
    ensures
        r@ == spec_dec(n as nat),
    decreases n,
{
    if n < 10 {
        let mut out: Vec<u8> = Vec::new();
        out.push(48 + (n as u8));
        proof {
            assert(out@ =~= spec_dec(n as nat));
        }
        out
    } else {
        let mut out = u64_to_decimal(n / 10);
        out.push(48 + ((n % 10) as u8));
        proof {
            assert(out@ =~= spec_dec(n as nat));
        }
        out
    }
}

/// Appends all of `src` to `dst`.
fn append_bytes(dst: &mut Vec<u8>, src: &Vec<u8>)
    ensures
        final(dst)@ == old(dst)@ + src@,
{
    let mut i: usize = 0;
    while i < src.len()
        invariant
            i <= src.len(),
            dst@ == old(dst)@ + src@.subrange(0, i as int),
        decreases src.len() - i,
    {
        dst.push(src[i]);
        i = i + 1;
        proof {
            assert(dst@ =~= old(dst)@ + src@.subrange(0, i as int));
        }
    }
    proof {
        assert(old(dst)@ + src@.subrange(0, src@.len() as int) =~= old(dst)@ + src@);
    }
}

/// Builds the candidate destination name for the given probe counter.
pub fn candidate_name(name: &Vec<u8>, counter: u64) -> (r: Vec<u8>)
    ensures
        r@ == spec_candidate(name@, counter as nat),
{
    if counter == 0 {
        let out = copy_range(name, 0, name.len());
        proof {
            assert(name@.subrange(0, name@.len() as int) =~= name@);
        }
        return out;
    }
    let (stem, ext) = split_file_name(name);
    let digits = u64_to_decimal(counter);
    let mut out = stem;
    out.push(95);
    append_bytes(&mut out, &digits);
    match ext {
        Some(e) => {
            out.push(46);
            append_bytes(&mut out, &e);
            proof {
                assert(out@ =~= spec_candidate(name@, counter as nat));
            }
            out
        },
        None => {
            proof {
                assert(out@ =~= spec_candidate(name@, counter as nat));
            }
            out
        },
    }
}

} // verus!
