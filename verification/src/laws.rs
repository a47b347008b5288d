//! The laws of resolution, proved over the mathematical model that
//! [`crate::resolver::Registry::resolve`] is pinned to.

use vstd::prelude::*;
use vstd::multiset::Multiset;
use crate::error::SpecError;
use crate::order::version_le;
use crate::registry::{FallbackPolicy, Namespace, Profile, SpecCommand, SpecRegistry, Version};
use crate::resolver::{
    add_exts_commands, add_exts_enums, base_commands, cmd_in_base, dedup_names, ext_queue,
    find_ext, first_unknown, insert_cmd, sort_cmds, spec_resolve, SpecResolved,
};

verus! {

/// Resolution is deterministic: two resolutions of identical inputs
/// are identical, so repeated runs over the same registry and
/// configuration match exactly.
pub proof fn lemma_resolution_deterministic(
    reg: SpecRegistry,
    ns: Namespace,
    v: Version,
    p: Profile,
    req: Seq<Seq<char>>,
    fb: FallbackPolicy,
    r1: Result<SpecResolved, SpecError>,
    r2: Result<SpecResolved, SpecError>,
)
    requires
        r1 == spec_resolve(reg, ns, v, p, req, fb),
        r2 == spec_resolve(reg, ns, v, p, req, fb),
    ensures
        r1 == r2,
{
}

/// A name list that still holds an unknown name after one known name
/// is appended holds the same first unknown.
proof fn lemma_first_unknown_push(
    es: Seq<crate::registry::SpecExtension>,
    req: Seq<Seq<char>>,
    x: Seq<char>,
)
    requires
        find_ext(es, x) is Some,
    ensures
        first_unknown(es, req.push(x)) == first_unknown(es, req),
    decreases req.len(),
{
    if req.len() == 0 {
        assert(req.push(x)[0] == x);
        assert(req.push(x).drop_first() =~= Seq::<Seq<char>>::empty());
        assert(first_unknown(es, req.push(x)) == first_unknown(es, req.push(x).drop_first()));
        assert(first_unknown(es, req.push(x).drop_first()) is None);
    } else {
        assert(req.push(x)[0] == req[0]);
        if find_ext(es, req[0]) is None {
        } else {
            assert(req.push(x).drop_first() =~= req.drop_first().push(x));
            lemma_first_unknown_push(es, req.drop_first(), x);
        }
    }
}

/// When every requested name is known, each one has an extension
/// definition.
proof fn lemma_all_known(es: Seq<crate::registry::SpecExtension>, req: Seq<Seq<char>>, i: int)
    requires
        first_unknown(es, req) is None,
        0 <= i < req.len(),
    ensures
        find_ext(es, req[i]) is Some,
    decreases req.len(),
{
    if i == 0 {
    } else {
        lemma_all_known(es, req.drop_first(), i - 1);
    }
}

/// Removing a later occurrence of a name already kept or seen leaves
/// deduplication unchanged.
proof fn lemma_dedup_drop_dup(s1: Seq<Seq<char>>, x: Seq<char>, s2: Seq<Seq<char>>, seen: Seq<
    Seq<char>,
>)
    requires
        s1.contains(x) || seen.contains(x),
    ensures
        dedup_names(s1 + seq![x] + s2, seen) == dedup_names(s1 + s2, seen),
    decreases s1.len(),
{
    if s1.len() == 0 {
        assert(seen.contains(x));
        assert((s1 + seq![x] + s2)[0] == x);
        assert((s1 + seq![x] + s2).drop_first() =~= s2);
        assert(s1 + s2 =~= s2);
    } else {
        let h = s1[0];
        let t = s1.drop_first();
        assert((s1 + seq![x] + s2)[0] == h);
        assert((s1 + s2)[0] == h);
        assert((s1 + seq![x] + s2).drop_first() =~= t + seq![x] + s2);
        assert((s1 + s2).drop_first() =~= t + s2);
        if seen.contains(h) {
            if x == h {
                lemma_dedup_drop_dup(t, x, s2, seen);
            } else {
                assert(t.contains(x) || seen.contains(x)) by {
                    if s1.contains(x) {
                        let w = choose|w: int| 0 <= w < s1.len() && s1[w] == x;
                        assert(w != 0);
                        assert(t[w - 1] == x);
                    }
                }
                lemma_dedup_drop_dup(t, x, s2, seen);
            }
        } else {
            assert(t.contains(x) || seen.push(h).contains(x)) by {
                if x == h {
                    assert(seen.push(h)[seen.len() as int] == h);
                } else if s1.contains(x) {
                    let w = choose|w: int| 0 <= w < s1.len() && s1[w] == x;
                    assert(w != 0);
                    assert(t[w - 1] == x);
                } else {
                    assert(seen.push(h)[seen.len() as int] == h);
                    let w = choose|w: int| 0 <= w < seen.len() && seen[w] == x;
                    assert(seen.push(h)[w] == x);
                }
            }
            lemma_dedup_drop_dup(t, x, s2, seen.push(h));
        }
    }
}

/// Requesting an extension twice is idempotent: the resolution with a
/// duplicate request appended equals the resolution without it.
pub proof fn lemma_duplicate_request_idempotent(
    reg: SpecRegistry,
    ns: Namespace,
    v: Version,
    p: Profile,
    req: Seq<Seq<char>>,
    fb: FallbackPolicy,
    x: Seq<char>,
)
    requires
        req.contains(x),
    ensures
        spec_resolve(reg, ns, v, p, req.push(x), fb) == spec_resolve(reg, ns, v, p, req, fb),
{
    if first_unknown(reg.extensions, req) is Some {
        lemma_first_unknown_is_some_push(reg.extensions, req, x);
    } else {
        let w = choose|w: int| 0 <= w < req.len() && req[w] == x;
        lemma_all_known(reg.extensions, req, w);
        lemma_first_unknown_push(reg.extensions, req, x);
        // The queues coincide.
        if fb == FallbackPolicy::All {
            let f = crate::resolver::fallback_names(reg.extensions, ns);
            assert(req.push(x) + f =~= req + seq![x] + f);
            assert(req + f =~= req + f);
            lemma_dedup_drop_dup(req, x, f, Seq::empty());
            assert(ext_queue(reg, req.push(x), ns, fb) == ext_queue(reg, req, ns, fb));
        } else {
            assert(req.push(x) =~= req + seq![x] + Seq::<Seq<char>>::empty());
            assert(req =~= req + Seq::<Seq<char>>::empty());
            lemma_dedup_drop_dup(req, x, Seq::empty(), Seq::empty());
            assert(ext_queue(reg, req.push(x), ns, fb) == ext_queue(reg, req, ns, fb));
        }
    }
}

/// A list whose first unknown exists keeps that first unknown when a
/// name is appended.
proof fn lemma_first_unknown_is_some_push(
    es: Seq<crate::registry::SpecExtension>,
    req: Seq<Seq<char>>,
    x: Seq<char>,
)
    requires
        first_unknown(es, req) is Some,
    ensures
        first_unknown(es, req.push(x)) == first_unknown(es, req),
    decreases req.len(),
{
    assert(req.len() > 0);
    assert(req.push(x)[0] == req[0]);
    if find_ext(es, req[0]) is None {
    } else {
        assert(req.push(x).drop_first() =~= req.drop_first().push(x));
        lemma_first_unknown_is_some_push(es, req.drop_first(), x);
    }
}

/// A requested name the registry lacks fails resolution with
/// `UnknownExtension`, and nothing partial is produced: the result
/// carries no binding set at all.
pub proof fn lemma_unknown_extension_rejected(
    reg: SpecRegistry,
    ns: Namespace,
    v: Version,
    p: Profile,
    req: Seq<Seq<char>>,
    fb: FallbackPolicy,
    i: int,
)
    requires
        0 <= i < req.len(),
        find_ext(reg.extensions, req[i]) is None,
    ensures
        spec_resolve(reg, ns, v, p, req, fb) is Err,
        spec_resolve(reg, ns, v, p, req, fb)->Err_0 is UnknownExtension,
{
    lemma_some_unknown(reg.extensions, req, i);
}

/// A list holding an unknown name has a first unknown.
proof fn lemma_some_unknown(
    es: Seq<crate::registry::SpecExtension>,
    req: Seq<Seq<char>>,
    i: int,
)
    requires
        0 <= i < req.len(),
        find_ext(es, req[i]) is None,
    ensures
        first_unknown(es, req) is Some,
    decreases req.len(),
{
    if find_ext(es, req[0]) is None {
    } else {
        assert(i != 0);
        lemma_some_unknown(es, req.drop_first(), i - 1);
    }
}

// ------------------------------------------------------------------
// Version monotonicity
// ------------------------------------------------------------------
/// Insertion adds the element and keeps the rest.
proof fn lemma_insert_cmd_multiset(s: Seq<SpecCommand>, c: SpecCommand)
    ensures
        insert_cmd(s, c).to_multiset() == s.to_multiset().insert(c),
    decreases s.len(),
{
    broadcast use vstd::seq_lib::group_to_multiset_ensures;

    if s.len() == 0 {
        assert(insert_cmd(s, c) =~= Seq::empty().push(c));
        assert(Seq::<SpecCommand>::empty().push(c).to_multiset() =~= s.to_multiset().insert(c));
    } else if crate::order::cmd_le(s[0], c) {
        lemma_insert_cmd_multiset(s.drop_first(), c);
        assert(insert_cmd(s, c) == seq![s[0]] + insert_cmd(s.drop_first(), c));
        lemma_multiset_cons(s[0], insert_cmd(s.drop_first(), c));
        lemma_multiset_cons(s[0], s.drop_first());
        assert(seq![s[0]] + s.drop_first() =~= s);
        assert(insert_cmd(s, c).to_multiset() =~= s.to_multiset().insert(c));
    } else {
        lemma_multiset_cons(c, s);
        assert(insert_cmd(s, c).to_multiset() =~= s.to_multiset().insert(c));
    }
}

/// Prepending one element inserts it into the multiset.
proof fn lemma_multiset_cons(x: SpecCommand, s: Seq<SpecCommand>)
    ensures
        (seq![x] + s).to_multiset() == s.to_multiset().insert(x),
    decreases s.len(),
{
    broadcast use vstd::seq_lib::group_to_multiset_ensures;

    assert(seq![x] + s =~= s.insert(0, x));
    vstd::seq_lib::lemma_multiset_commutative(seq![x], s);
    assert(seq![x].to_multiset() =~= Multiset::empty().insert(x));
    assert(seq![x].to_multiset().add(s.to_multiset()) =~= s.to_multiset().insert(x));
}

/// Sorting permutes: the sorted sequence holds the same commands.
proof fn lemma_sort_cmds_multiset(s: Seq<SpecCommand>)
    ensures
        sort_cmds(s).to_multiset() == s.to_multiset(),
    decreases s.len(),
{
    broadcast use vstd::seq_lib::group_to_multiset_ensures;

    if s.len() == 0 {
    } else {
        lemma_sort_cmds_multiset(s.drop_last());
        lemma_insert_cmd_multiset(sort_cmds(s.drop_last()), s.last());
        assert(s =~= s.drop_last().push(s.last()));
        assert(s.drop_last().push(s.last()).to_multiset() == s.drop_last().to_multiset().insert(
            s.last(),
        ));
    }
}

/// Membership is preserved by sorting.
proof fn lemma_sort_cmds_contains(s: Seq<SpecCommand>, c: SpecCommand)
    ensures
        sort_cmds(s).contains(c) == s.contains(c),
{
    broadcast use vstd::seq_lib::group_to_multiset_ensures;

    lemma_sort_cmds_multiset(s);
    assert(sort_cmds(s).contains(c) <==> sort_cmds(s).to_multiset().count(c) > 0);
    assert(s.contains(c) <==> s.to_multiset().count(c) > 0);
}

/// The base set holds exactly the registry commands that satisfy the
/// base predicate.
proof fn lemma_base_commands_contains(
    cs: Seq<SpecCommand>,
    ns: Namespace,
    v: Version,
    p: Profile,
    c: SpecCommand,
)
    ensures
        base_commands(cs, ns, v, p).contains(c) == (cs.contains(c) && cmd_in_base(c, ns, v, p)),
    decreases cs.len(),
{
    if cs.len() == 0 {
    } else {
        lemma_base_commands_contains(cs.drop_last(), ns, v, p, c);
        let pre = base_commands(cs.drop_last(), ns, v, p);
        if cmd_in_base(cs.last(), ns, v, p) {
            assert(base_commands(cs, ns, v, p) == pre.push(cs.last()));
            if c == cs.last() {
                assert(pre.push(cs.last())[pre.len() as int] == c);
                assert(base_commands(cs, ns, v, p).contains(c));
                assert(cs.contains(c)) by {
                    assert(cs[cs.len() - 1] == c);
                }
            } else {
                assert(pre.push(cs.last()).contains(c) == pre.contains(c)) by {
                    if pre.contains(c) {
                        let w = choose|w: int| 0 <= w < pre.len() && pre[w] == c;
                        assert(pre.push(cs.last())[w] == c);
                    } else if pre.push(cs.last()).contains(c) {
                        let w = choose|w: int|
                            0 <= w < pre.len() + 1 && pre.push(cs.last())[w] == c;
                        assert(w < pre.len());
                        assert(pre[w] == c);
                    }
                }
                assert(cs.contains(c) == cs.drop_last().contains(c)) by {
                    if cs.drop_last().contains(c) {
                        let w = choose|w: int|
                            0 <= w < cs.len() - 1 && cs.drop_last()[w] == c;
                        assert(cs[w] == c);
                    } else if cs.contains(c) {
                        let w = choose|w: int| 0 <= w < cs.len() && cs[w] == c;
                        assert(w < cs.len() - 1);
                        assert(cs.drop_last()[w] == c);
                    }
                }
            }
        } else {
            assert(base_commands(cs, ns, v, p) == pre);
            if c == cs.last() {
                assert(!cmd_in_base(c, ns, v, p));
                assert(cs.contains(cs.last())) by {
                    assert(cs[cs.len() - 1] == cs.last());
                }
            } else {
                assert(cs.contains(c) == cs.drop_last().contains(c)) by {
                    if cs.drop_last().contains(c) {
                        let w = choose|w: int|
                            0 <= w < cs.len() - 1 && cs.drop_last()[w] == c;
                        assert(cs[w] == c);
                    } else if cs.contains(c) {
                        let w = choose|w: int| 0 <= w < cs.len() && cs[w] == c;
                        assert(w < cs.len() - 1);
                        assert(cs.drop_last()[w] == c);
                    }
                }
            }
        }
    }
}

/// With no extensions requested, resolution always succeeds and its
/// command set is the sorted base set.
proof fn lemma_resolve_plain(reg: SpecRegistry, ns: Namespace, v: Version, p: Profile)
    ensures
        spec_resolve(reg, ns, v, p, Seq::empty(), FallbackPolicy::RequestedOnly) is Ok,
        spec_resolve(
            reg,
            ns,
            v,
            p,
            Seq::empty(),
            FallbackPolicy::RequestedOnly,
        )->Ok_0.commands == sort_cmds(base_commands(reg.commands, ns, v, p)),
{
    let req = Seq::<Seq<char>>::empty();
    assert(first_unknown(reg.extensions, req) is None);
    assert(dedup_names(req, Seq::empty()) =~= Seq::<Seq<char>>::empty());
    let q = ext_queue(reg, req, ns, FallbackPolicy::RequestedOnly);
    assert(q.len() == 0);
    assert(add_exts_commands(reg, base_commands(reg.commands, ns, v, p), q) == Ok::<
        Seq<SpecCommand>,
        Seq<char>,
    >(base_commands(reg.commands, ns, v, p)));
    assert(add_exts_enums(reg, crate::resolver::base_enums(reg.enums, ns, v, p), q) == Ok::<
        Seq<crate::registry::SpecEnumDef>,
        Seq<char>,
    >(crate::resolver::base_enums(reg.enums, ns, v, p)));
}

/// Version monotonicity: with no extensions, every command resolved
/// at a version stays resolved at any later version on the same
/// namespace and profile, unless the registry marks it removed at or
/// before the later version (which the core profile honors).
pub proof fn lemma_version_monotonic(
    reg: SpecRegistry,
    ns: Namespace,
    p: Profile,
    v1: Version,
    v2: Version,
    c: SpecCommand,
)
    requires
        version_le(v1, v2),
        spec_resolve(reg, ns, v1, p, Seq::empty(), FallbackPolicy::RequestedOnly) is Ok,
        spec_resolve(
            reg,
            ns,
            v1,
            p,
            Seq::empty(),
            FallbackPolicy::RequestedOnly,
        )->Ok_0.commands.contains(c),
        !(p == Profile::Core && c.removed_core is Some && version_le(c.removed_core->0, v2)),
    ensures
        spec_resolve(reg, ns, v2, p, Seq::empty(), FallbackPolicy::RequestedOnly) is Ok,
        spec_resolve(
            reg,
            ns,
            v2,
            p,
            Seq::empty(),
            FallbackPolicy::RequestedOnly,
        )->Ok_0.commands.contains(c),
{
    lemma_resolve_plain(reg, ns, v1, p);
    lemma_resolve_plain(reg, ns, v2, p);
    lemma_sort_cmds_contains(base_commands(reg.commands, ns, v1, p), c);
    lemma_base_commands_contains(reg.commands, ns, v1, p, c);
    assert(cmd_in_base(c, ns, v1, p));
    assert(cmd_in_base(c, ns, v2, p));
    lemma_base_commands_contains(reg.commands, ns, v2, p, c);
    lemma_sort_cmds_contains(base_commands(reg.commands, ns, v2, p), c);
}

// ------------------------------------------------------------------
// Output ordering
// ------------------------------------------------------------------
/// The lexicographic order is total.
proof fn lemma_lex_le_total(a: Seq<char>, b: Seq<char>)
    ensures
        crate::order::lex_le(a, b) || crate::order::lex_le(b, a),
    decreases a.len(),
{
    if a.len() == 0 {
    } else if b.len() == 0 {
    } else if (a[0] as u32) < (b[0] as u32) {
    } else if (b[0] as u32) < (a[0] as u32) {
    } else {
        lemma_lex_le_total(a.drop_first(), b.drop_first());
    }
}

/// The command order is total.
proof fn lemma_cmd_le_total(a: SpecCommand, b: SpecCommand)
    ensures
        crate::order::cmd_le(a, b) || crate::order::cmd_le(b, a),
{
    match (a.introduced, b.introduced) {
        (Some(x), Some(y)) => {
            if x == y {
                lemma_lex_le_total(a.name, b.name);
            }
        },
        (Option::None, Option::None) => {
            lemma_lex_le_total(a.name, b.name);
        },
        _ => {},
    }
}

/// Adjacent entries stay ordered through an insertion.
proof fn lemma_insert_cmd_ordered(s: Seq<SpecCommand>, c: SpecCommand)
    requires
        forall|i: int| 0 <= i < s.len() - 1 ==> crate::order::cmd_le(#[trigger] s[i], s[i + 1]),
    ensures
        forall|i: int|
            0 <= i < insert_cmd(s, c).len() - 1 ==> crate::order::cmd_le(
                #[trigger] insert_cmd(s, c)[i],
                insert_cmd(s, c)[i + 1],
            ),
    decreases s.len(),
{
    if s.len() == 0 {
    } else if crate::order::cmd_le(s[0], c) {
        assert(forall|i: int|
            0 <= i < s.drop_first().len() - 1 ==> crate::order::cmd_le(
                #[trigger] s.drop_first()[i],
                s.drop_first()[i + 1],
            ));
        lemma_insert_cmd_ordered(s.drop_first(), c);
        let r = seq![s[0]] + insert_cmd(s.drop_first(), c);
        assert(insert_cmd(s, c) == r);
        assert forall|i: int| 0 <= i < r.len() - 1 implies crate::order::cmd_le(
            #[trigger] r[i],
            r[i + 1],
        ) by {
            if i == 0 {
                let rest = insert_cmd(s.drop_first(), c);
                assert(r[1] == rest[0]);
                if s.drop_first().len() == 0 {
                    assert(rest[0] == c);
                } else if crate::order::cmd_le(s.drop_first()[0], c) {
                    assert(rest[0] == s.drop_first()[0]);
                    assert(crate::order::cmd_le(s[0], s[1]));
                } else {
                    assert(rest[0] == c);
                }
            } else {
                assert(r[i] == insert_cmd(s.drop_first(), c)[i - 1]);
                assert(r[i + 1] == insert_cmd(s.drop_first(), c)[i]);
            }
        }
    } else {
        lemma_cmd_le_total(s[0], c);
        assert(crate::order::cmd_le(c, s[0]));
        let r = seq![c] + s;
        assert(insert_cmd(s, c) == r);
        assert forall|i: int| 0 <= i < r.len() - 1 implies crate::order::cmd_le(
            #[trigger] r[i],
            r[i + 1],
        ) by {
            if i == 0 {
                assert(r[0] == c && r[1] == s[0]);
            } else {
                assert(r[i] == s[i - 1]);
                assert(r[i + 1] == s[i]);
            }
        }
    }
}

/// The resolved output really is ordered: after sorting, each entry
/// comes no later than the next under the first-introduced-version,
/// then name, order.
pub proof fn lemma_sorted_output(s: Seq<SpecCommand>)
    ensures
        forall|i: int|
            0 <= i < sort_cmds(s).len() - 1 ==> crate::order::cmd_le(
                #[trigger] sort_cmds(s)[i],
                sort_cmds(s)[i + 1],
            ),
    decreases s.len(),
{
    if s.len() == 0 {
    } else {
        lemma_sorted_output(s.drop_last());
        lemma_insert_cmd_ordered(sort_cmds(s.drop_last()), s.last());
    }
}

} // verus!
