use vstd::prelude::*;
use crate::path::CanonPath;
use crate::time::NANOS_PER_SEC;
use crate::time::Ttl;

verus! {

/// The most ASCII digit bytes a duration text handed to the outside parser
/// may hold.
///
/// The bound is what keeps the call below total-seconds overflow: a span of
/// the duration grammar whose magnitude has `d` digits contributes fewer
/// than 10^d times 31 557 600 seconds (a year, the largest unit), so with
/// at most 11 digits in the whole text the seconds total stays below
/// 10^11 * 31 557 600, which is below `u64::MAX`. Unit names, spaces and
/// punctuation are not counted: a marker is passed over only when its
/// magnitudes alone are out of range, that is, for durations of several
/// millennia and beyond.
pub const MAX_TTL_DIGITS: usize = 11;

/// Whether a byte is an ASCII decimal digit.
pub open spec fn is_ascii_digit(b: u8) -> bool {
    48 <= b <= 57
}

/// How many ASCII digit bytes the text holds.
pub open spec fn digit_count(text: Seq<u8>) -> nat
    decreases text.len(),
{
    if text.len() == 0 {
        0
    } else {
        digit_count(text.drop_last()) + (if is_ascii_digit(text.last()) {
            1nat
        } else {
            0nat
        })
    }
}

/// What humantime's duration parser returns for the given UTF-8 bytes:
/// whole seconds and subsecond nanoseconds, or `None` where the bytes are
/// not valid UTF-8 or not a valid duration.
pub uninterp spec fn duration_parse(text: Seq<u8>) -> Option<(u64, u32)>;

/// Relies on humantime::parse_duration for the duration grammar (integer
/// magnitudes with unit suffixes, composable: `10s`, `90m`, `1h30m`, `1d`);
/// the result depends on the bytes alone. A `std::time::Duration` keeps its
/// subsecond part below one second.
///
/// The digit bound is owed to the parser's carry handling: a nanosecond
/// total of exactly one billion is handed uncorrected to `Duration::new`,
/// which panics when the seconds counter already stands at `u64::MAX`
/// (reachable from text such as `18446744073709551615s1000000000ns`).
/// With at most `MAX_TTL_DIGITS` digit bytes the seconds total stays far
/// below `u64::MAX` (see the constant), so no input admitted here can
/// panic.
#[verifier::external_body]
fn parse_duration_bytes(text: &Vec<u8>) -> (r: Option<(u64, u32)>)
    requires
        digit_count(text@) <= MAX_TTL_DIGITS,
    ensures
        r == duration_parse(text@),
        r matches Some(p) ==> p.1 < NANOS_PER_SEC,
{
    match core::str::from_utf8(text.as_slice()) {
        Ok(s) => match humantime::parse_duration(s) {
            Ok(d) => Some((d.as_secs(), d.subsec_nanos())),
            Err(_) => None,
        },
        Err(_) => None,
    }
}

/// Whether a component's text begins with the literal bytes of `ttl=`.
pub open spec fn has_ttl_prefix(c: Seq<u8>) -> bool {
    c.len() >= 4 && c[0] == 116 && c[1] == 116 && c[2] == 108 && c[3] == 61
}

/// The TTL one path component encodes, if any: the component must begin
/// with `ttl=`, the remainder must hold at most `MAX_TTL_DIGITS` digit
/// bytes (the machine limit that keeps the parser's seconds total in
/// range), and the remainder must read as a valid duration.
pub open spec fn component_ttl(c: Seq<u8>) -> Option<Ttl> {
    if has_ttl_prefix(c) && digit_count(c.skip(4)) <= MAX_TTL_DIGITS {
        match duration_parse(c.skip(4)) {
            Some(p) => Some(Ttl { secs: p.0, nanos: p.1 }),
            None => None,
        }
    } else {
        None
    }
}

/// The TTL of a path: scanning components from the filename toward the
/// root, the first component that encodes a valid TTL wins; a component
/// with the `ttl=` prefix but an invalid remainder is passed over.
pub open spec fn path_ttl(comps: Seq<Seq<u8>>) -> Option<Ttl>
    decreases comps.len(),
{
    if comps.len() == 0 {
        None
    } else if component_ttl(comps.last()) is Some {
        component_ttl(comps.last())
    } else {
        path_ttl(comps.drop_last())
    }
}

/// Parse one path component as a TTL marker: `ttl=` followed by a duration.
pub fn parse_ttl(comp: &Vec<u8>) -> (r: Option<Ttl>)
    ensures
        r == component_ttl(comp@),
        r matches Some(t) ==> t.wf(),
{
    // the bytes of "ttl="
    if comp.len() < 4 || comp[0] != 116 || comp[1] != 116 || comp[2] != 108 || comp[3] != 61 {
        return None;
    }
    let mut rest: Vec<u8> = Vec::new();
    let mut i: usize = 4;
    while i < comp.len()
        invariant
            4 <= i <= comp@.len(),
            rest@ =~= comp@.subrange(4, i as int),
        decreases comp@.len() - i,
    {
        rest.push(comp[i]);
        i += 1;
    }
    proof {
        assert(rest@ =~= comp@.skip(4));
    }
    let mut digits: usize = 0;
    let mut j: usize = 0;
    while j < rest.len()
        invariant
            j <= rest@.len(),
            digits <= j,
            digits == digit_count(rest@.take(j as int)),
        decreases rest@.len() - j,
    {
        proof {
            assert(rest@.take(j as int + 1).drop_last() =~= rest@.take(j as int));
            assert(rest@.take(j as int + 1).last() == rest@[j as int]);
        }
        if 48 <= rest[j] && rest[j] <= 57 {
            digits += 1;
        }
        j += 1;
    }
    proof {
        assert(rest@.take(rest@.len() as int) =~= rest@);
    }
    if digits > MAX_TTL_DIGITS {
        return None;
    }
    match parse_duration_bytes(&rest) {
        Some(p) => Some(Ttl { secs: p.0, nanos: p.1 }),
        None => None,
    }
}

/// Find the TTL for a path: the component nearest the filename that
/// encodes a valid TTL, or `None` where no component does.
pub fn find_ttl(path: &CanonPath) -> (r: Option<Ttl>)
    ensures
        r == path_ttl(path@),
        r matches Some(t) ==> t.wf(),
{
    let mut i: usize = path.components.len();
    proof {
        assert(path@.take(path.components@.len() as int) =~= path@);
    }
    while i > 0
        invariant
            i <= path.components@.len(),
            path@.len() == path.components@.len(),
            path_ttl(path@.take(i as int)) == path_ttl(path@),
        decreases i,
    {
        i -= 1;
        let r = parse_ttl(&path.components[i]);
        proof {
            assert(path@[i as int] == path.components@[i as int]@);
            assert(path@.take(i as int + 1).last() == path@[i as int]);
            assert(path@.take(i as int + 1).drop_last() =~= path@.take(i as int));
        }
        if r.is_some() {
            return r;
        }
    }
    proof {
        assert(path@.take(0) =~= Seq::<Seq<u8>>::empty());
    }
    None
}

/// The extractor law: if component `i` encodes a valid TTL and no component
/// nearer the filename does, the path's TTL is component `i`'s.
pub proof fn lemma_path_ttl_nearest(comps: Seq<Seq<u8>>, i: int)
    requires
        0 <= i < comps.len(),
        component_ttl(comps[i]) is Some,
        forall|j: int| i < j < comps.len() ==> component_ttl(comps[j]) is None,
    ensures
        path_ttl(comps) == component_ttl(comps[i]),
    decreases comps.len(),
{
    if i == comps.len() - 1 {
    } else {
        assert(component_ttl(comps.last()) is None);
        assert(comps.drop_last()[i] == comps[i]);
        lemma_path_ttl_nearest(comps.drop_last(), i);
    }
}

/// The extractor law, other direction: where no component encodes a valid
/// TTL, the path has none.
pub proof fn lemma_path_ttl_none(comps: Seq<Seq<u8>>)
    requires
        forall|j: int| 0 <= j < comps.len() ==> component_ttl(comps[j]) is None,
    ensures
        path_ttl(comps) is None,
    decreases comps.len(),
{
    if comps.len() == 0 {
    } else {
        lemma_path_ttl_none(comps.drop_last());
    }
}

} // verus!
