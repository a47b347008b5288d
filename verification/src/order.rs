//! The deterministic output order of resolution: symbols are sorted by
//! first-introduced version, then by name. Extension-only symbols (no
//! introduction version) sort after all versioned ones.

use vstd::prelude::*;
use vstd::string::StrSliceExecFns;
use crate::registry::{Command, EnumDef, SpecCommand, SpecEnumDef, Version};

verus! {

/// Lexicographic order on character sequences, by code point.
pub open spec fn lex_le(a: Seq<char>, b: Seq<char>) -> bool
    decreases a.len(),
{
    if a.len() == 0 {
        true
    } else if b.len() == 0 {
        false
    } else if (a[0] as u32) < (b[0] as u32) {
        true
    } else if (b[0] as u32) < (a[0] as u32) {
        false
    } else {
        lex_le(a.drop_first(), b.drop_first())
    }
}

/// Version order: by major, then minor.
pub open spec fn version_le(a: Version, b: Version) -> bool {
    a.major < b.major || (a.major == b.major && a.minor <= b.minor)
}

/// Strict version order.
pub open spec fn version_lt(a: Version, b: Version) -> bool {
    a.major < b.major || (a.major == b.major && a.minor < b.minor)
}

/// Strict order on introduction versions; an absent version (an
/// extension-only symbol) comes after every present one.
pub open spec fn intro_lt(a: Option<Version>, b: Option<Version>) -> bool {
    match (a, b) {
        (Some(x), Some(y)) => version_lt(x, y),
        (Some(_), None) => true,
        _ => false,
    }
}

/// Output order on commands: introduction version, then name.
pub open spec fn cmd_le(a: SpecCommand, b: SpecCommand) -> bool {
    intro_lt(a.introduced, b.introduced) || (a.introduced == b.introduced && lex_le(a.name, b.name))
}

/// Output order on enums: introduction version, then name.
pub open spec fn enum_le(a: SpecEnumDef, b: SpecEnumDef) -> bool {
    intro_lt(a.introduced, b.introduced) || (a.introduced == b.introduced && lex_le(a.name, b.name))
}

/// Executable form of [`lex_le`].
pub fn str_lex_le(a: &str, b: &str) -> (r: bool)
    ensures
        r == lex_le(a@, b@),
{
    let alen = a.unicode_len();
    let blen = b.unicode_len();
    let mut i: usize = 0;
    proof {
        assert(a@.skip(0) =~= a@);
        assert(b@.skip(0) =~= b@);
    }
    while i < alen && i < blen
        invariant
            alen == a@.len(),
            blen == b@.len(),
            i <= alen,
            i <= blen,
            lex_le(a@, b@) == lex_le(a@.skip(i as int), b@.skip(i as int)),
        decreases alen - i,
    {
        let ca = a.get_char(i);
        let cb = b.get_char(i);
        if (ca as u32) < (cb as u32) {
            return true;
        }
        if (cb as u32) < (ca as u32) {
            return false;
        }
        proof {
            assert(a@.skip(i as int).drop_first() =~= a@.skip(i as int + 1));
            assert(b@.skip(i as int).drop_first() =~= b@.skip(i as int + 1));
        }
        i = i + 1;
    }
    if i == alen {
        assert(a@.skip(i as int).len() == 0);
        true
    } else {
        assert(b@.skip(i as int).len() == 0 && a@.skip(i as int).len() > 0);
        false
    }
}

/// Executable form of [`version_lt`].
fn version_lt_exec(a: Version, b: Version) -> (r: bool)
    ensures
        r == version_lt(a, b),
{
    a.major < b.major || (a.major == b.major && a.minor < b.minor)
}

/// Executable form of [`cmd_le`].
pub fn cmd_le_exec(a: &Command, b: &Command) -> (r: bool)
    ensures
        r == cmd_le(a.deep_view(), b.deep_view()),
{
    match (a.introduced, b.introduced) {
        (Some(x), Some(y)) => {
            if version_lt_exec(x, y) {
                true
            } else if version_lt_exec(y, x) {
                false
            } else {
                assert(x == y);
                str_lex_le(a.name.as_str(), b.name.as_str())
            }
        },
        (Some(_), Option::None) => true,
        (Option::None, Some(_)) => false,
        (Option::None, Option::None) => str_lex_le(a.name.as_str(), b.name.as_str()),
    }
}

/// Executable form of [`enum_le`].
pub fn enum_le_exec(a: &EnumDef, b: &EnumDef) -> (r: bool)
    ensures
        r == enum_le(a.deep_view(), b.deep_view()),
{
    match (a.introduced, b.introduced) {
        (Some(x), Some(y)) => {
            if version_lt_exec(x, y) {
                true
            } else if version_lt_exec(y, x) {
                false
            } else {
                assert(x == y);
                str_lex_le(a.name.as_str(), b.name.as_str())
            }
        },
        (Some(_), Option::None) => true,
        (Option::None, Some(_)) => false,
        (Option::None, Option::None) => str_lex_le(a.name.as_str(), b.name.as_str()),
    }
}


/// Character-for-character string equality, over the views.
pub fn str_eq(a: &str, b: &str) -> (r: bool)
    ensures
        r == (a@ == b@),
{
    let alen = a.unicode_len();
    let blen = b.unicode_len();
    if alen != blen {
        return false;
    }
    let mut i: usize = 0;
    while i < alen
        invariant
            alen == a@.len(),
            blen == b@.len(),
            alen == blen,
            i <= alen,
            forall|t: int| 0 <= t < i ==> a@[t] == b@[t],
        decreases alen - i,
    {
        let ca = a.get_char(i);
        let cb = b.get_char(i);
        if ca != cb {
            return false;
        }
        i = i + 1;
    }
    proof {
        assert(a@ =~= b@);
    }
    true
}

} // verus!
