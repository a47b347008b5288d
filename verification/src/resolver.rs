//! Extension resolution: computes the effective command/enum set for a
//! target configuration.
//!
//! Resolution starts from the base set implied by {namespace, version,
//! profile}: every command or enum introduced at or before the version
//! within the namespace, excluding (for the core profile) anything
//! explicitly removed at or before it. Each requested extension is
//! unioned in; under [`FallbackPolicy::All`] so is every extension the
//! registry marks as a standard fallback for the namespace. An
//! extension reference resolves to the first registry definition
//! bearing that name (the authoritative lookup rule of this model); a
//! reference whose name is already present with a compatible signature
//! (or equal value, for enums) is ignored, and one with an
//! incompatible signature fails resolution with
//! `ConflictingExtension`. A requested name with no extension
//! definition fails with `UnknownExtension`; nothing partial is ever
//! produced. Output is ordered by first-introduced version, then name,
//! so repeated runs over identical inputs match exactly.

use vstd::prelude::*;
use crate::error::{Error, SpecError};
use crate::order::{cmd_le, cmd_le_exec, enum_le, enum_le_exec, version_le};
use crate::registry::{
    Command, EnumDef, Extension, FallbackPolicy, Namespace, Profile, Registry, SpecCommand,
    SpecEnumDef, SpecExtension, SpecRegistry, Version, in_universe,
};

verus! {

// ------------------------------------------------------------------
// Base-set selection
// ------------------------------------------------------------------
/// Is the command part of the base set of {namespace, version,
/// profile}? Introduced at or before the version in that namespace,
/// and (for the core profile) not removed at or before it.
pub open spec fn cmd_in_base(c: SpecCommand, ns: Namespace, v: Version, p: Profile) -> bool {
    &&& in_universe(c.universes, ns)
    &&& match c.introduced {
        Some(iv) => version_le(iv, v),
        Option::None => false,
    }
    &&& !(p == Profile::Core && match c.removed_core {
        Some(rv) => version_le(rv, v),
        Option::None => false,
    })
}

/// Is the enum part of the base set? Same rule as for commands.
pub open spec fn enum_in_base(e: SpecEnumDef, ns: Namespace, v: Version, p: Profile) -> bool {
    &&& in_universe(e.universes, ns)
    &&& match e.introduced {
        Some(iv) => version_le(iv, v),
        Option::None => false,
    }
    &&& !(p == Profile::Core && match e.removed_core {
        Some(rv) => version_le(rv, v),
        Option::None => false,
    })
}

/// The base commands, in registry order.
pub open spec fn base_commands(cs: Seq<SpecCommand>, ns: Namespace, v: Version, p: Profile) -> Seq<
    SpecCommand,
>
    decreases cs.len(),
{
    if cs.len() == 0 {
        Seq::empty()
    } else {
        let pre = base_commands(cs.drop_last(), ns, v, p);
        if cmd_in_base(cs.last(), ns, v, p) {
            pre.push(cs.last())
        } else {
            pre
        }
    }
}

/// The base enums, in registry order.
pub open spec fn base_enums(es: Seq<SpecEnumDef>, ns: Namespace, v: Version, p: Profile) -> Seq<
    SpecEnumDef,
>
    decreases es.len(),
{
    if es.len() == 0 {
        Seq::empty()
    } else {
        let pre = base_enums(es.drop_last(), ns, v, p);
        if enum_in_base(es.last(), ns, v, p) {
            pre.push(es.last())
        } else {
            pre
        }
    }
}

// ------------------------------------------------------------------
// Name lookup
// ------------------------------------------------------------------
/// First extension definition bearing the name, in registry order.
pub open spec fn find_ext(es: Seq<SpecExtension>, n: Seq<char>) -> Option<SpecExtension>
    decreases es.len(),
{
    if es.len() == 0 {
        Option::None
    } else if es[0].name == n {
        Some(es[0])
    } else {
        find_ext(es.drop_first(), n)
    }
}

/// First command definition bearing the name, in registry order: the
/// definition an extension reference resolves to.
pub open spec fn find_cmd(cs: Seq<SpecCommand>, n: Seq<char>) -> Option<SpecCommand>
    decreases cs.len(),
{
    if cs.len() == 0 {
        Option::None
    } else if cs[0].name == n {
        Some(cs[0])
    } else {
        find_cmd(cs.drop_first(), n)
    }
}

/// First enum definition bearing the name, in registry order.
pub open spec fn find_enum(es: Seq<SpecEnumDef>, n: Seq<char>) -> Option<SpecEnumDef>
    decreases es.len(),
{
    if es.len() == 0 {
        Option::None
    } else if es[0].name == n {
        Some(es[0])
    } else {
        find_enum(es.drop_first(), n)
    }
}

/// The first requested extension name the registry does not define.
pub open spec fn first_unknown(es: Seq<SpecExtension>, req: Seq<Seq<char>>) -> Option<Seq<char>>
    decreases req.len(),
{
    if req.len() == 0 {
        Option::None
    } else if find_ext(es, req[0]) is None {
        Some(req[0])
    } else {
        first_unknown(es, req.drop_first())
    }
}

// ------------------------------------------------------------------
// The extension queue: requested names, then (under `All`) the
// standard fallback promotions, first occurrence of each name kept.
// ------------------------------------------------------------------
/// Names of the extensions the registry marks as standard fallback
/// promotions for the namespace, in registry order.
pub open spec fn fallback_names(es: Seq<SpecExtension>, ns: Namespace) -> Seq<Seq<char>>
    decreases es.len(),
{
    if es.len() == 0 {
        Seq::empty()
    } else {
        let pre = fallback_names(es.drop_last(), ns);
        if es.last().fallback && in_universe(es.last().universes, ns) {
            pre.push(es.last().name)
        } else {
            pre
        }
    }
}

/// Keeps the first occurrence of each name; `seen` holds the names
/// already kept.
pub open spec fn dedup_names(s: Seq<Seq<char>>, seen: Seq<Seq<char>>) -> Seq<Seq<char>>
    decreases s.len(),
{
    if s.len() == 0 {
        Seq::empty()
    } else if seen.contains(s[0]) {
        dedup_names(s.drop_first(), seen)
    } else {
        seq![s[0]] + dedup_names(s.drop_first(), seen.push(s[0]))
    }
}

/// The queue of extension names resolution processes, in order.
pub open spec fn ext_queue(
    reg: SpecRegistry,
    req: Seq<Seq<char>>,
    ns: Namespace,
    fb: FallbackPolicy,
) -> Seq<Seq<char>> {
    let combined = if fb == FallbackPolicy::All {
        req + fallback_names(reg.extensions, ns)
    } else {
        req
    };
    dedup_names(combined, Seq::empty())
}

// ------------------------------------------------------------------
// Unioning extensions into the set
// ------------------------------------------------------------------
/// Signature compatibility: same return type, same parameter types.
pub open spec fn sig_compatible(a: SpecCommand, b: SpecCommand) -> bool {
    a.ret_ty == b.ret_ty && a.params.map_values(|p: crate::registry::SpecParam| p.ty)
        == b.params.map_values(|p: crate::registry::SpecParam| p.ty)
}

/// Adds the commands one extension references. A name already present
/// is ignored when compatible and a conflict otherwise; the error
/// carries the extension's name.
pub open spec fn add_ext_commands(
    reg_cmds: Seq<SpecCommand>,
    out: Seq<SpecCommand>,
    names: Seq<Seq<char>>,
    ext_name: Seq<char>,
) -> Result<Seq<SpecCommand>, Seq<char>>
    decreases names.len(),
{
    if names.len() == 0 {
        Ok(out)
    } else {
        match find_cmd(reg_cmds, names[0]) {
            Option::None => add_ext_commands(reg_cmds, out, names.drop_first(), ext_name),
            Some(cand) => match find_cmd(out, names[0]) {
                Some(existing) => if sig_compatible(existing, cand) {
                    add_ext_commands(reg_cmds, out, names.drop_first(), ext_name)
                } else {
                    Err(ext_name)
                },
                Option::None => add_ext_commands(
                    reg_cmds,
                    out.push(cand),
                    names.drop_first(),
                    ext_name,
                ),
            },
        }
    }
}

/// Adds the enums one extension references; compatibility is equal
/// value.
pub open spec fn add_ext_enums(
    reg_enums: Seq<SpecEnumDef>,
    out: Seq<SpecEnumDef>,
    names: Seq<Seq<char>>,
    ext_name: Seq<char>,
) -> Result<Seq<SpecEnumDef>, Seq<char>>
    decreases names.len(),
{
    if names.len() == 0 {
        Ok(out)
    } else {
        match find_enum(reg_enums, names[0]) {
            Option::None => add_ext_enums(reg_enums, out, names.drop_first(), ext_name),
            Some(cand) => match find_enum(out, names[0]) {
                Some(existing) => if existing.value == cand.value {
                    add_ext_enums(reg_enums, out, names.drop_first(), ext_name)
                } else {
                    Err(ext_name)
                },
                Option::None => add_ext_enums(
                    reg_enums,
                    out.push(cand),
                    names.drop_first(),
                    ext_name,
                ),
            },
        }
    }
}

/// Folds the command additions of every queued extension, in order.
pub open spec fn add_exts_commands(
    reg: SpecRegistry,
    out: Seq<SpecCommand>,
    queue: Seq<Seq<char>>,
) -> Result<Seq<SpecCommand>, Seq<char>>
    decreases queue.len(),
{
    if queue.len() == 0 {
        Ok(out)
    } else {
        match find_ext(reg.extensions, queue[0]) {
            Option::None => add_exts_commands(reg, out, queue.drop_first()),
            Some(e) => match add_ext_commands(reg.commands, out, e.commands, e.name) {
                Err(n) => Err(n),
                Ok(out2) => add_exts_commands(reg, out2, queue.drop_first()),
            },
        }
    }
}

/// Folds the enum additions of every queued extension, in order.
pub open spec fn add_exts_enums(
    reg: SpecRegistry,
    out: Seq<SpecEnumDef>,
    queue: Seq<Seq<char>>,
) -> Result<Seq<SpecEnumDef>, Seq<char>>
    decreases queue.len(),
{
    if queue.len() == 0 {
        Ok(out)
    } else {
        match find_ext(reg.extensions, queue[0]) {
            Option::None => add_exts_enums(reg, out, queue.drop_first()),
            Some(e) => match add_ext_enums(reg.enums, out, e.enums, e.name) {
                Err(n) => Err(n),
                Ok(out2) => add_exts_enums(reg, out2, queue.drop_first()),
            },
        }
    }
}

// ------------------------------------------------------------------
// Output ordering
// ------------------------------------------------------------------
/// Inserts a command before the first entry it does not come after.
pub open spec fn insert_cmd(s: Seq<SpecCommand>, c: SpecCommand) -> Seq<SpecCommand>
    decreases s.len(),
{
    if s.len() == 0 {
        seq![c]
    } else if cmd_le(s[0], c) {
        seq![s[0]] + insert_cmd(s.drop_first(), c)
    } else {
        seq![c] + s
    }
}

/// Insertion sort of commands under [`cmd_le`].
pub open spec fn sort_cmds(s: Seq<SpecCommand>) -> Seq<SpecCommand>
    decreases s.len(),
{
    if s.len() == 0 {
        Seq::empty()
    } else {
        insert_cmd(sort_cmds(s.drop_last()), s.last())
    }
}

/// Inserts an enum before the first entry it does not come after.
pub open spec fn insert_enum(s: Seq<SpecEnumDef>, e: SpecEnumDef) -> Seq<SpecEnumDef>
    decreases s.len(),
{
    if s.len() == 0 {
        seq![e]
    } else if enum_le(s[0], e) {
        seq![s[0]] + insert_enum(s.drop_first(), e)
    } else {
        seq![e] + s
    }
}

/// Insertion sort of enums under [`enum_le`].
pub open spec fn sort_enums(s: Seq<SpecEnumDef>) -> Seq<SpecEnumDef>
    decreases s.len(),
{
    if s.len() == 0 {
        Seq::empty()
    } else {
        insert_enum(sort_enums(s.drop_last()), s.last())
    }
}

// ------------------------------------------------------------------
// The resolved binding set
// ------------------------------------------------------------------
/// Mathematical image of [`ResolvedBindingSet`].
pub struct SpecResolved {
    pub namespace: Namespace,
    pub version: Version,
    pub profile: Profile,
    pub commands: Seq<SpecCommand>,
    pub enums: Seq<SpecEnumDef>,
}

/// The deterministic, deduplicated output of applying a configuration
/// to a registry: an ordered command sequence and an ordered mapping
/// of enum names to values, scoped to one configuration tuple.
#[derive(Debug, PartialEq, Eq)]
pub struct ResolvedBindingSet {
    pub namespace: Namespace,
    pub version: Version,
    pub profile: Profile,
    pub commands: Vec<Command>,
    pub enums: Vec<EnumDef>,
}

impl DeepView for ResolvedBindingSet {
    type V = SpecResolved;

    open spec fn deep_view(&self) -> SpecResolved {
        SpecResolved {
            namespace: self.namespace,
            version: self.version,
            profile: self.profile,
            commands: self.commands.deep_view(),
            enums: self.enums.deep_view(),
        }
    }
}

/// The whole resolution algorithm, as one mathematical function of its
/// inputs. [`Registry::resolve`] returns exactly this.
pub open spec fn spec_resolve(
    reg: SpecRegistry,
    ns: Namespace,
    v: Version,
    p: Profile,
    req: Seq<Seq<char>>,
    fb: FallbackPolicy,
) -> Result<SpecResolved, SpecError> {
    match first_unknown(reg.extensions, req) {
        Some(n) => Err(SpecError::UnknownExtension(n)),
        Option::None => {
            let q = ext_queue(reg, req, ns, fb);
            match add_exts_commands(reg, base_commands(reg.commands, ns, v, p), q) {
                Err(n) => Err(SpecError::ConflictingExtension(n)),
                Ok(cs) => match add_exts_enums(reg, base_enums(reg.enums, ns, v, p), q) {
                    Err(n) => Err(SpecError::ConflictingExtension(n)),
                    Ok(es) => Ok(
                        SpecResolved {
                            namespace: ns,
                            version: v,
                            profile: p,
                            commands: sort_cmds(cs),
                            enums: sort_enums(es),
                        },
                    ),
                },
            }
        },
    }
}

// ------------------------------------------------------------------
// Executable helpers
// ------------------------------------------------------------------
/// Index of the first extension bearing the name; mirrors
/// [`find_ext`].
fn find_ext_idx(es: &Vec<Extension>, n: &String) -> (r: Option<usize>)
    ensures
        match r {
            Some(i) => i < es@.len() && find_ext(es.deep_view(), n@) == Some(
                es.deep_view()[i as int],
            ),
            Option::None => find_ext(es.deep_view(), n@) is None,
        },
{
    let ghost dv = es.deep_view();
    let mut i: usize = 0;
    proof {
        assert(dv.skip(0) =~= dv);
    }
    while i < es.len()
        invariant
            dv == es.deep_view(),
            dv.len() == es.len(),
            i <= es.len(),
            find_ext(dv, n@) == find_ext(dv.skip(i as int), n@),
        decreases es.len() - i,
    {
        if es[i].name == *n {
            assert(dv.skip(i as int)[0] == dv[i as int]);
            return Some(i);
        }
        proof {
            assert(dv.skip(i as int).drop_first() =~= dv.skip(i as int + 1));
        }
        i = i + 1;
    }
    assert(dv.skip(i as int).len() == 0);
    Option::None
}

/// Index of the first command bearing the name; mirrors [`find_cmd`].
fn find_cmd_idx(cs: &Vec<Command>, n: &String) -> (r: Option<usize>)
    ensures
        match r {
            Some(i) => i < cs@.len() && find_cmd(cs.deep_view(), n@) == Some(
                cs.deep_view()[i as int],
            ),
            Option::None => find_cmd(cs.deep_view(), n@) is None,
        },
{
    let ghost dv = cs.deep_view();
    let mut i: usize = 0;
    proof {
        assert(dv.skip(0) =~= dv);
    }
    while i < cs.len()
        invariant
            dv == cs.deep_view(),
            dv.len() == cs.len(),
            i <= cs.len(),
            find_cmd(dv, n@) == find_cmd(dv.skip(i as int), n@),
        decreases cs.len() - i,
    {
        if cs[i].name == *n {
            assert(dv.skip(i as int)[0] == dv[i as int]);
            return Some(i);
        }
        proof {
            assert(dv.skip(i as int).drop_first() =~= dv.skip(i as int + 1));
        }
        i = i + 1;
    }
    assert(dv.skip(i as int).len() == 0);
    Option::None
}

/// Index of the first enum bearing the name; mirrors [`find_enum`].
fn find_enum_idx(es: &Vec<EnumDef>, n: &String) -> (r: Option<usize>)
    ensures
        match r {
            Some(i) => i < es@.len() && find_enum(es.deep_view(), n@) == Some(
                es.deep_view()[i as int],
            ),
            Option::None => find_enum(es.deep_view(), n@) is None,
        },
{
    let ghost dv = es.deep_view();
    let mut i: usize = 0;
    proof {
        assert(dv.skip(0) =~= dv);
    }
    while i < es.len()
        invariant
            dv == es.deep_view(),
            dv.len() == es.len(),
            i <= es.len(),
            find_enum(dv, n@) == find_enum(dv.skip(i as int), n@),
        decreases es.len() - i,
    {
        if es[i].name == *n {
            assert(dv.skip(i as int)[0] == dv[i as int]);
            return Some(i);
        }
        proof {
            assert(dv.skip(i as int).drop_first() =~= dv.skip(i as int + 1));
        }
        i = i + 1;
    }
    assert(dv.skip(i as int).len() == 0);
    Option::None
}

/// Does the name list already hold this name?
fn contains_name(v: &Vec<String>, n: &String) -> (r: bool)
    ensures
        r == v.deep_view().contains(n@),
{
    let mut i: usize = 0;
    while i < v.len()
        invariant
            v.deep_view().len() == v.len(),
            i <= v.len(),
            forall|t: int| 0 <= t < i ==> v.deep_view()[t] != n@,
        decreases v.len() - i,
    {
        if v[i] == *n {
            assert(v.deep_view()[i as int] == n@);
            return true;
        }
        i = i + 1;
    }
    assert(!v.deep_view().contains(n@));
    false
}

/// A fresh copy of a parameter list, equal in the model.
fn copy_params(ps: &Vec<crate::registry::Param>) -> (r: Vec<crate::registry::Param>)
    ensures
        r.deep_view() == ps.deep_view(),
{
    let mut r: Vec<crate::registry::Param> = Vec::new();
    let mut i: usize = 0;
    while i < ps.len()
        invariant
            ps.deep_view().len() == ps.len(),
            i <= ps.len(),
            r.deep_view() =~= ps.deep_view().take(i as int),
        decreases ps.len() - i,
    {
        let p = crate::registry::Param { name: ps[i].name.clone(), ty: ps[i].ty.clone() };
        assert(p.deep_view() == ps.deep_view()[i as int]);
        let ghost pre = r;
        let ghost gp = p;
        r.push(p);
        proof {
            lemma_push_deep(pre, r, gp);
            assert(r.deep_view() =~= ps.deep_view().take(i as int + 1));
        }
        i = i + 1;
    }
    assert(r.deep_view() =~= ps.deep_view());
    r
}

/// A fresh copy of a command, equal in the model.
fn copy_command(c: &Command) -> (r: Command)
    ensures
        r.deep_view() == c.deep_view(),
{
    Command {
        name: c.name.clone(),
        ret_ty: c.ret_ty.clone(),
        params: copy_params(&c.params),
        universes: c.universes,
        introduced: c.introduced,
        removed_core: c.removed_core,
    }
}

/// A fresh copy of an enum definition, equal in the model.
fn copy_enum_def(e: &EnumDef) -> (r: EnumDef)
    ensures
        r.deep_view() == e.deep_view(),
{
    let group = match &e.group {
        Some(g) => Some(g.clone()),
        Option::None => Option::None,
    };
    EnumDef {
        name: e.name.clone(),
        value: e.value,
        group,
        universes: e.universes,
        introduced: e.introduced,
        removed_core: e.removed_core,
    }
}

/// Executable form of [`sig_compatible`].
fn sig_compatible_exec(a: &Command, b: &Command) -> (r: bool)
    ensures
        r == sig_compatible(a.deep_view(), b.deep_view()),
{
    let ghost av = a.deep_view();
    let ghost bv = b.deep_view();
    if !(a.ret_ty == b.ret_ty) {
        return false;
    }
    if a.params.len() != b.params.len() {
        assert(av.params.map_values(|p: crate::registry::SpecParam| p.ty).len() != bv.params.map_values(
            |p: crate::registry::SpecParam| p.ty,
        ).len());
        return false;
    }
    let mut i: usize = 0;
    while i < a.params.len()
        invariant
            av == a.deep_view(),
            bv == b.deep_view(),
            av.params.len() == a.params.len(),
            bv.params.len() == b.params.len(),
            a.params.len() == b.params.len(),
            i <= a.params.len(),
            forall|t: int| 0 <= t < i ==> av.params[t].ty == bv.params[t].ty,
        decreases a.params.len() - i,
    {
        if !(a.params[i].ty == b.params[i].ty) {
            assert(av.params.map_values(|p: crate::registry::SpecParam| p.ty)[i as int]
                != bv.params.map_values(|p: crate::registry::SpecParam| p.ty)[i as int]);
            return false;
        }
        assert(av.params[i as int].ty == bv.params[i as int].ty);
        i = i + 1;
    }
    proof {
        assert(av.params.map_values(|p: crate::registry::SpecParam| p.ty) =~= bv.params.map_values(
            |p: crate::registry::SpecParam| p.ty,
        ));
    }
    true
}

/// Executable form of [`cmd_in_base`].
fn cmd_in_base_exec(c: &Command, ns: Namespace, v: Version, p: Profile) -> (r: bool)
    ensures
        r == cmd_in_base(c.deep_view(), ns, v, p),
{
    let in_ns = match ns {
        Namespace::DesktopGl => c.universes.desktop,
        Namespace::EmbeddedGles => c.universes.embedded,
    };
    if !in_ns {
        return false;
    }
    let intro_ok = match c.introduced {
        Some(iv) => iv.major < v.major || (iv.major == v.major && iv.minor <= v.minor),
        Option::None => false,
    };
    if !intro_ok {
        return false;
    }
    let removed = match c.removed_core {
        Some(rv) => rv.major < v.major || (rv.major == v.major && rv.minor <= v.minor),
        Option::None => false,
    };
    !(p == Profile::Core && removed)
}

/// Executable form of [`enum_in_base`].
fn enum_in_base_exec(e: &EnumDef, ns: Namespace, v: Version, p: Profile) -> (r: bool)
    ensures
        r == enum_in_base(e.deep_view(), ns, v, p),
{
    let in_ns = match ns {
        Namespace::DesktopGl => e.universes.desktop,
        Namespace::EmbeddedGles => e.universes.embedded,
    };
    if !in_ns {
        return false;
    }
    let intro_ok = match e.introduced {
        Some(iv) => iv.major < v.major || (iv.major == v.major && iv.minor <= v.minor),
        Option::None => false,
    };
    if !intro_ok {
        return false;
    }
    let removed = match e.removed_core {
        Some(rv) => rv.major < v.major || (rv.major == v.major && rv.minor <= v.minor),
        Option::None => false,
    };
    !(p == Profile::Core && removed)
}

// ------------------------------------------------------------------
// Sorting, executable
// ------------------------------------------------------------------
/// The first position whose entry does not come before `c`.
fn insert_position_cmd(out: &Vec<Command>, c: &Command) -> (pos: usize)
    ensures
        pos <= out@.len(),
        forall|t: int| 0 <= t < pos ==> cmd_le(#[trigger] out.deep_view()[t], c.deep_view()),
        pos < out@.len() ==> !cmd_le(out.deep_view()[pos as int], c.deep_view()),
{
    let mut pos: usize = 0;
    while pos < out.len()
        invariant
            out.deep_view().len() == out@.len(),
            pos <= out.len(),
            forall|t: int| 0 <= t < pos ==> cmd_le(#[trigger] out.deep_view()[t], c.deep_view()),
        decreases out.len() - pos,
    {
        if !cmd_le_exec(&out[pos], c) {
            return pos;
        }
        pos = pos + 1;
    }
    pos
}

/// The first position whose entry does not come before `e`.
fn insert_position_enum(out: &Vec<EnumDef>, e: &EnumDef) -> (pos: usize)
    ensures
        pos <= out@.len(),
        forall|t: int| 0 <= t < pos ==> enum_le(#[trigger] out.deep_view()[t], e.deep_view()),
        pos < out@.len() ==> !enum_le(out.deep_view()[pos as int], e.deep_view()),
{
    let mut pos: usize = 0;
    while pos < out.len()
        invariant
            out.deep_view().len() == out@.len(),
            pos <= out.len(),
            forall|t: int| 0 <= t < pos ==> enum_le(#[trigger] out.deep_view()[t], e.deep_view()),
        decreases out.len() - pos,
    {
        if !enum_le_exec(&out[pos], e) {
            return pos;
        }
        pos = pos + 1;
    }
    pos
}

/// Scanning for the insertion point computes exactly [`insert_cmd`].
proof fn lemma_insert_cmd_at(s: Seq<SpecCommand>, c: SpecCommand, pos: int)
    requires
        0 <= pos <= s.len(),
        forall|t: int| 0 <= t < pos ==> cmd_le(#[trigger] s[t], c),
        pos < s.len() ==> !cmd_le(s[pos], c),
    ensures
        insert_cmd(s, c) == s.take(pos) + seq![c] + s.skip(pos),
    decreases pos,
{
    if pos == 0 {
        if s.len() == 0 {
            assert(insert_cmd(s, c) =~= s.take(0) + seq![c] + s.skip(0));
        } else {
            assert(!cmd_le(s[0], c));
            assert(insert_cmd(s, c) =~= s.take(0) + seq![c] + s.skip(0));
        }
    } else {
        assert(cmd_le(s[0], c));
        let rest = s.drop_first();
        assert(forall|t: int| 0 <= t < pos - 1 ==> cmd_le(#[trigger] rest[t], c));
        lemma_insert_cmd_at(rest, c, pos - 1);
        assert(insert_cmd(s, c) == seq![s[0]] + insert_cmd(rest, c));
        assert(seq![s[0]] + (rest.take(pos - 1) + seq![c] + rest.skip(pos - 1)) =~= s.take(pos)
            + seq![c] + s.skip(pos));
    }
}

/// Scanning for the insertion point computes exactly [`insert_enum`].
proof fn lemma_insert_enum_at(s: Seq<SpecEnumDef>, e: SpecEnumDef, pos: int)
    requires
        0 <= pos <= s.len(),
        forall|t: int| 0 <= t < pos ==> enum_le(#[trigger] s[t], e),
        pos < s.len() ==> !enum_le(s[pos], e),
    ensures
        insert_enum(s, e) == s.take(pos) + seq![e] + s.skip(pos),
    decreases pos,
{
    if pos == 0 {
        if s.len() == 0 {
            assert(insert_enum(s, e) =~= s.take(0) + seq![e] + s.skip(0));
        } else {
            assert(!enum_le(s[0], e));
            assert(insert_enum(s, e) =~= s.take(0) + seq![e] + s.skip(0));
        }
    } else {
        assert(enum_le(s[0], e));
        let rest = s.drop_first();
        assert(forall|t: int| 0 <= t < pos - 1 ==> enum_le(#[trigger] rest[t], e));
        lemma_insert_enum_at(rest, e, pos - 1);
        assert(insert_enum(s, e) == seq![s[0]] + insert_enum(rest, e));
        assert(seq![s[0]] + (rest.take(pos - 1) + seq![e] + rest.skip(pos - 1)) =~= s.take(pos)
            + seq![e] + s.skip(pos));
    }
}

/// Sorts commands under [`cmd_le`] by insertion, mirroring
/// [`sort_cmds`].
fn sort_commands(input: &Vec<Command>) -> (r: Vec<Command>)
    ensures
        r.deep_view() == sort_cmds(input.deep_view()),
{
    let ghost dv = input.deep_view();
    let mut out: Vec<Command> = Vec::new();
    let mut i: usize = 0;
    proof {
        assert(dv.take(0) =~= Seq::<SpecCommand>::empty());
    }
    while i < input.len()
        invariant
            dv == input.deep_view(),
            dv.len() == input.len(),
            i <= input.len(),
            out.deep_view() == sort_cmds(dv.take(i as int)),
        decreases input.len() - i,
    {
        let c = copy_command(&input[i]);
        let ghost od = out.deep_view();
        let pos = insert_position_cmd(&out, &c);
        proof {
            lemma_insert_cmd_at(od, c.deep_view(), pos as int);
        }
        out.insert(pos, c);
        proof {
            assert(out.deep_view() =~= od.take(pos as int) + seq![dv[i as int]] + od.skip(
                pos as int,
            ));
            assert(dv.take(i as int + 1).drop_last() =~= dv.take(i as int));
            assert(out.deep_view() == insert_cmd(sort_cmds(dv.take(i as int)), dv[i as int]));
        }
        i = i + 1;
    }
    proof {
        assert(dv.take(dv.len() as int) =~= dv);
    }
    out
}

/// Sorts enums under [`enum_le`] by insertion, mirroring
/// [`sort_enums`].
fn sort_enum_defs(input: &Vec<EnumDef>) -> (r: Vec<EnumDef>)
    ensures
        r.deep_view() == sort_enums(input.deep_view()),
{
    let ghost dv = input.deep_view();
    let mut out: Vec<EnumDef> = Vec::new();
    let mut i: usize = 0;
    proof {
        assert(dv.take(0) =~= Seq::<SpecEnumDef>::empty());
    }
    while i < input.len()
        invariant
            dv == input.deep_view(),
            dv.len() == input.len(),
            i <= input.len(),
            out.deep_view() == sort_enums(dv.take(i as int)),
        decreases input.len() - i,
    {
        let e = copy_enum_def(&input[i]);
        let ghost od = out.deep_view();
        let pos = insert_position_enum(&out, &e);
        proof {
            lemma_insert_enum_at(od, e.deep_view(), pos as int);
        }
        out.insert(pos, e);
        proof {
            assert(out.deep_view() =~= od.take(pos as int) + seq![dv[i as int]] + od.skip(
                pos as int,
            ));
            assert(dv.take(i as int + 1).drop_last() =~= dv.take(i as int));
            assert(out.deep_view() == insert_enum(sort_enums(dv.take(i as int)), dv[i as int]));
        }
        i = i + 1;
    }
    proof {
        assert(dv.take(dv.len() as int) =~= dv);
    }
    out
}

// ------------------------------------------------------------------
// Resolution, executable
// ------------------------------------------------------------------
/// Pushing onto a vector pushes the element's image onto the deep
/// view.
proof fn lemma_push_deep<T: DeepView>(pre: Vec<T>, post: Vec<T>, x: T)
    requires
        post@ == pre@.push(x),
    ensures
        post.deep_view() == pre.deep_view().push(x.deep_view()),
{
    assert forall|k: int| 0 <= k < post.deep_view().len() implies post.deep_view()[k]
        == pre.deep_view().push(x.deep_view())[k] by {
        if k < pre@.len() {
            assert(post@[k] == pre@[k]);
        } else {
            assert(post@[k] == x);
        }
    }
    assert(post.deep_view() =~= pre.deep_view().push(x.deep_view()));
}

impl Registry {
    /// Computes the resolved binding set for one configuration tuple.
    ///
    /// Returns exactly [`spec_resolve`] of the inputs: the sorted,
    /// deduplicated base-plus-extensions set on success;
    /// `UnknownExtension` with the first requested name the registry
    /// lacks; `ConflictingExtension` with the offending extension's
    /// name on an incompatible addition. On any failure nothing
    /// partial is produced.
    pub fn resolve(
        &self,
        ns: Namespace,
        version: Version,
        profile: Profile,
        requested: &Vec<String>,
        fallback: FallbackPolicy,
    ) -> (r: Result<ResolvedBindingSet, Error>)
        ensures
            ({
                let s = spec_resolve(
                    self.deep_view(),
                    ns,
                    version,
                    profile,
                    requested.deep_view(),
                    fallback,
                );
                match r {
                    Ok(rs) => s is Ok && rs.deep_view() == s->Ok_0,
                    Err(e) => s is Err && e.deep_view() == s->Err_0,
                }
            }),
    {
        let ghost reg = self.deep_view();
        let ghost reqv = requested.deep_view();
        // Reject the first unknown requested extension name.
        let mut ui: usize = 0;
        proof {
            assert(reqv.skip(0) =~= reqv);
        }
        while ui < requested.len()
            invariant
                reg == self.deep_view(),
                reqv == requested.deep_view(),
                reqv.len() == requested.len(),
                ui <= requested.len(),
                first_unknown(reg.extensions, reqv) == first_unknown(
                    reg.extensions,
                    reqv.skip(ui as int),
                ),
            decreases requested.len() - ui,
        {
            proof {
                assert(reqv.skip(ui as int)[0] == reqv[ui as int]);
            }
            if find_ext_idx(&self.extensions, &requested[ui]).is_none() {
                proof {
                    assert(first_unknown(reg.extensions, reqv) == Some(reqv[ui as int]));
                }
                return Err(Error::UnknownExtension(requested[ui].clone()));
            }
            proof {
                assert(reqv.skip(ui as int).drop_first() =~= reqv.skip(ui as int + 1));
            }
            ui = ui + 1;
        }
        proof {
            assert(reqv.skip(requested.len() as int).len() == 0);
            assert(first_unknown(reg.extensions, reqv) is None);
        }
        // The queue: requested names, then (under `All`) the fallback
        // promotions, deduplicated keeping first occurrences.
        let mut combined: Vec<String> = Vec::new();
        let mut ri: usize = 0;
        proof {
            assert(combined.deep_view() =~= reqv.take(0));
        }
        while ri < requested.len()
            invariant
                reqv == requested.deep_view(),
                reqv.len() == requested.len(),
                ri <= requested.len(),
                combined.deep_view() == reqv.take(ri as int),
            decreases requested.len() - ri,
        {
            let ghost pre = combined;
            combined.push(requested[ri].clone());
            proof {
                lemma_push_deep(pre, combined, requested@[ri as int]);
                assert(combined.deep_view() =~= reqv.take(ri as int + 1));
            }
            ri = ri + 1;
        }
        proof {
            assert(reqv.take(requested.len() as int) =~= reqv);
        }
        if fallback == FallbackPolicy::All {
            let mut fi: usize = 0;
            proof {
                assert(fallback_names(reg.extensions.take(0), ns) =~= Seq::<Seq<char>>::empty());
                assert(combined.deep_view() =~= reqv + fallback_names(reg.extensions.take(0), ns));
            }
            while fi < self.extensions.len()
                invariant
                    reg == self.deep_view(),
                    reqv == requested.deep_view(),
                    reg.extensions.len() == self.extensions.len(),
                    fi <= self.extensions.len(),
                    combined.deep_view() == reqv + fallback_names(
                        reg.extensions.take(fi as int),
                        ns,
                    ),
                decreases self.extensions.len() - fi,
            {
                let ext = &self.extensions[fi];
                let in_ns = match ns {
                    Namespace::DesktopGl => ext.universes.desktop,
                    Namespace::EmbeddedGles => ext.universes.embedded,
                };
                proof {
                    assert(reg.extensions.take(fi as int + 1).drop_last() =~= reg.extensions.take(
                        fi as int,
                    ));
                    assert(reg.extensions.take(fi as int + 1).last() == reg.extensions[fi as int]);
                }
                if ext.fallback && in_ns {
                    let ghost pre = combined;
                    combined.push(ext.name.clone());
                    proof {
                        lemma_push_deep(pre, combined, self.extensions@[fi as int].name);
                        assert(self.extensions@[fi as int].name@ == reg.extensions[fi as int].name);
                        assert(combined.deep_view() == reqv + fallback_names(
                            reg.extensions.take(fi as int),
                            ns,
                        ) + seq![reg.extensions[fi as int].name]);
                        assert(combined.deep_view() =~= reqv + fallback_names(
                            reg.extensions.take(fi as int + 1),
                            ns,
                        ));
                    }
                }
                fi = fi + 1;
            }
            proof {
                assert(reg.extensions.take(self.extensions.len() as int) =~= reg.extensions);
            }
        }
        let ghost cdv = combined.deep_view();
        proof {
            if fallback == FallbackPolicy::All {
                assert(cdv == reqv + fallback_names(reg.extensions, ns));
            } else {
                assert(cdv == reqv);
            }
        }
        // Deduplicate into the processing queue.
        let mut queue: Vec<String> = Vec::new();
        let mut di: usize = 0;
        proof {
            assert(cdv.skip(0) =~= cdv);
            assert(queue.deep_view() =~= Seq::<Seq<char>>::empty());
            assert(queue.deep_view() + dedup_names(cdv.skip(0), queue.deep_view()) =~= dedup_names(
                cdv,
                Seq::empty(),
            ));
        }
        while di < combined.len()
            invariant
                cdv == combined.deep_view(),
                cdv.len() == combined.len(),
                di <= combined.len(),
                dedup_names(cdv, Seq::empty()) == queue.deep_view() + dedup_names(
                    cdv.skip(di as int),
                    queue.deep_view(),
                ),
            decreases combined.len() - di,
        {
            proof {
                assert(cdv.skip(di as int)[0] == cdv[di as int]);
                assert(cdv.skip(di as int).drop_first() =~= cdv.skip(di as int + 1));
            }
            if contains_name(&queue, &combined[di]) {
                proof {
                    assert(dedup_names(cdv.skip(di as int), queue.deep_view()) == dedup_names(
                        cdv.skip(di as int + 1),
                        queue.deep_view(),
                    ));
                }
            } else {
                let ghost pre = queue;
                queue.push(combined[di].clone());
                proof {
                    lemma_push_deep(pre, queue, combined@[di as int]);
                    assert(dedup_names(cdv.skip(di as int), pre.deep_view()) == seq![cdv[di as int]]
                        + dedup_names(cdv.skip(di as int + 1), pre.deep_view().push(cdv[di as int])));
                    assert(pre.deep_view() + (seq![cdv[di as int]] + dedup_names(
                        cdv.skip(di as int + 1),
                        queue.deep_view(),
                    )) =~= queue.deep_view() + dedup_names(
                        cdv.skip(di as int + 1),
                        queue.deep_view(),
                    ));
                }
            }
            di = di + 1;
        }
        let ghost qdv = queue.deep_view();
        proof {
            assert(cdv.skip(combined.len() as int).len() == 0);
            assert(dedup_names(cdv.skip(combined.len() as int), qdv) =~= Seq::<Seq<char>>::empty());
            assert(qdv + Seq::<Seq<char>>::empty() =~= qdv);
            assert(qdv == dedup_names(cdv, Seq::empty()));
            assert(qdv == ext_queue(reg, reqv, ns, fallback));
        }
        // The base command set, in registry order.
        let mut out_cmds: Vec<Command> = Vec::new();
        let mut bi: usize = 0;
        proof {
            assert(reg.commands.take(0) =~= Seq::<SpecCommand>::empty());
            assert(out_cmds.deep_view() =~= base_commands(reg.commands.take(0), ns, version, profile));
        }
        while bi < self.commands.len()
            invariant
                reg == self.deep_view(),
                reg.commands.len() == self.commands.len(),
                bi <= self.commands.len(),
                out_cmds.deep_view() == base_commands(
                    reg.commands.take(bi as int),
                    ns,
                    version,
                    profile,
                ),
            decreases self.commands.len() - bi,
        {
            proof {
                assert(reg.commands.take(bi as int + 1).drop_last() =~= reg.commands.take(
                    bi as int,
                ));
                assert(reg.commands.take(bi as int + 1).last() == reg.commands[bi as int]);
            }
            if cmd_in_base_exec(&self.commands[bi], ns, version, profile) {
                let ghost pre = out_cmds;
                let c = copy_command(&self.commands[bi]);
                let ghost gc = c;
                out_cmds.push(c);
                proof {
                    lemma_push_deep(pre, out_cmds, gc);
                    assert(out_cmds.deep_view() == pre.deep_view().push(reg.commands[bi as int]));
                }
            }
            bi = bi + 1;
        }
        proof {
            assert(reg.commands.take(self.commands.len() as int) =~= reg.commands);
        }
        // The base enum set, in registry order.
        let mut out_enums: Vec<EnumDef> = Vec::new();
        let mut ei: usize = 0;
        proof {
            assert(reg.enums.take(0) =~= Seq::<SpecEnumDef>::empty());
            assert(out_enums.deep_view() =~= base_enums(reg.enums.take(0), ns, version, profile));
        }
        while ei < self.enums.len()
            invariant
                reg == self.deep_view(),
                reg.enums.len() == self.enums.len(),
                ei <= self.enums.len(),
                out_enums.deep_view() == base_enums(reg.enums.take(ei as int), ns, version, profile),
            decreases self.enums.len() - ei,
        {
            proof {
                assert(reg.enums.take(ei as int + 1).drop_last() =~= reg.enums.take(ei as int));
                assert(reg.enums.take(ei as int + 1).last() == reg.enums[ei as int]);
            }
            if enum_in_base_exec(&self.enums[ei], ns, version, profile) {
                let ghost pre = out_enums;
                let e = copy_enum_def(&self.enums[ei]);
                let ghost ge = e;
                out_enums.push(e);
                proof {
                    lemma_push_deep(pre, out_enums, ge);
                    assert(out_enums.deep_view() == pre.deep_view().push(reg.enums[ei as int]));
                }
            }
            ei = ei + 1;
        }
        proof {
            assert(reg.enums.take(self.enums.len() as int) =~= reg.enums);
        }
        // Union in the commands of every queued extension.
        let ghost goal_c = add_exts_commands(
            reg,
            base_commands(reg.commands, ns, version, profile),
            qdv,
        );
        let mut qi: usize = 0;
        proof {
            assert(qdv.skip(0) =~= qdv);
        }
        while qi < queue.len()
            invariant
                reg == self.deep_view(),
                reqv == requested.deep_view(),
                first_unknown(reg.extensions, reqv) is None,
                qdv == queue.deep_view(),
                qdv.len() == queue.len(),
                qdv == ext_queue(reg, reqv, ns, fallback),
                goal_c == add_exts_commands(
                    reg,
                    base_commands(reg.commands, ns, version, profile),
                    qdv,
                ),
                qi <= queue.len(),
                goal_c == add_exts_commands(reg, out_cmds.deep_view(), qdv.skip(qi as int)),
            decreases queue.len() - qi,
        {
            proof {
                assert(qdv.skip(qi as int)[0] == qdv[qi as int]);
                assert(qdv.skip(qi as int).drop_first() =~= qdv.skip(qi as int + 1));
            }
            match find_ext_idx(&self.extensions, &queue[qi]) {
                Option::None => {
                },
                Some(exi) => {
                    let ext = &self.extensions[exi];
                    let ghost extv = reg.extensions[exi as int];
                    let ghost names = extv.commands;
                    proof {
                        assert(find_ext(reg.extensions, qdv[qi as int]) == Some(extv));
                        assert(names.skip(0) =~= names);
                    }
                    let mut k: usize = 0;
                    while k < ext.commands.len()
                        invariant
                            reg == self.deep_view(),
                            reqv == requested.deep_view(),
                            first_unknown(reg.extensions, reqv) is None,
                            qdv == ext_queue(reg, reqv, ns, fallback),
                            goal_c == add_exts_commands(
                                reg,
                                base_commands(reg.commands, ns, version, profile),
                                qdv,
                            ),
                            exi < self.extensions@.len(),
                            ext == &self.extensions@[exi as int],
                            extv == reg.extensions[exi as int],
                            names == extv.commands,
                            names.len() == ext.commands.len(),
                            qi < qdv.len(),
                            k <= ext.commands.len(),
                            goal_c == match add_ext_commands(
                                reg.commands,
                                out_cmds.deep_view(),
                                names.skip(k as int),
                                extv.name,
                            ) {
                                Err(n) => Err(n),
                                Ok(o2) => add_exts_commands(reg, o2, qdv.skip(qi as int + 1)),
                            },
                        decreases ext.commands.len() - k,
                    {
                        proof {
                            assert(names.skip(k as int)[0] == names[k as int]);
                            assert(names.skip(k as int).drop_first() =~= names.skip(k as int + 1));
                            assert(names[k as int] == ext.commands@[k as int]@);
                        }
                        let nm = &ext.commands[k];
                        match find_cmd_idx(&self.commands, nm) {
                            Option::None => {
                            },
                            Some(ci) => {
                                let ghost cand = reg.commands[ci as int];
                                proof {
                                    assert(find_cmd(reg.commands, names[k as int]) == Some(cand));
                                }
                                match find_cmd_idx(&out_cmds, nm) {
                                    Some(oi) => {
                                        let ghost existing = out_cmds.deep_view()[oi as int];
                                        if sig_compatible_exec(&out_cmds[oi], &self.commands[ci]) {
                                            proof {
                                                assert(sig_compatible(existing, cand));
                                            }
                                        } else {
                                            proof {
                                                assert(add_ext_commands(
                                                    reg.commands,
                                                    out_cmds.deep_view(),
                                                    names.skip(k as int),
                                                    extv.name,
                                                ) == Err::<Seq<SpecCommand>, Seq<char>>(extv.name));
                                                assert(goal_c == Err::<Seq<SpecCommand>, Seq<char>>(
                                                    extv.name,
                                                ));
                                            }
                                            return Err(Error::ConflictingExtension(
                                                ext.name.clone(),
                                            ));
                                        }
                                    },
                                    Option::None => {
                                        let ghost pre = out_cmds;
                                        let c = copy_command(&self.commands[ci]);
                                        let ghost gc = c;
                                        out_cmds.push(c);
                                        proof {
                                            lemma_push_deep(pre, out_cmds, gc);
                                            assert(out_cmds.deep_view() == pre.deep_view().push(
                                                cand,
                                            ));
                                        }
                                    },
                                }
                            },
                        }
                        k = k + 1;
                    }
                    proof {
                        assert(names.skip(ext.commands.len() as int).len() == 0);
                        assert(add_ext_commands(
                            reg.commands,
                            out_cmds.deep_view(),
                            names.skip(ext.commands.len() as int),
                            extv.name,
                        ) == Ok::<Seq<SpecCommand>, Seq<char>>(out_cmds.deep_view()));
                    }
                },
            }
            qi = qi + 1;
        }
        proof {
            assert(qdv.skip(queue.len() as int).len() == 0);
            assert(goal_c == Ok::<Seq<SpecCommand>, Seq<char>>(out_cmds.deep_view()));
        }
        // Union in the enums of every queued extension.
        let ghost goal_e = add_exts_enums(reg, base_enums(reg.enums, ns, version, profile), qdv);
        let mut qj: usize = 0;
        proof {
            assert(qdv.skip(0) =~= qdv);
        }
        while qj < queue.len()
            invariant
                reg == self.deep_view(),
                reqv == requested.deep_view(),
                first_unknown(reg.extensions, reqv) is None,
                qdv == queue.deep_view(),
                qdv.len() == queue.len(),
                qdv == ext_queue(reg, reqv, ns, fallback),
                goal_c == add_exts_commands(
                    reg,
                    base_commands(reg.commands, ns, version, profile),
                    qdv,
                ),
                goal_c == Ok::<Seq<SpecCommand>, Seq<char>>(out_cmds.deep_view()),
                goal_e == add_exts_enums(reg, base_enums(reg.enums, ns, version, profile), qdv),
                qj <= queue.len(),
                goal_e == add_exts_enums(reg, out_enums.deep_view(), qdv.skip(qj as int)),
            decreases queue.len() - qj,
        {
            proof {
                assert(qdv.skip(qj as int)[0] == qdv[qj as int]);
                assert(qdv.skip(qj as int).drop_first() =~= qdv.skip(qj as int + 1));
            }
            match find_ext_idx(&self.extensions, &queue[qj]) {
                Option::None => {
                },
                Some(exi) => {
                    let ext = &self.extensions[exi];
                    let ghost extv = reg.extensions[exi as int];
                    let ghost names = extv.enums;
                    proof {
                        assert(find_ext(reg.extensions, qdv[qj as int]) == Some(extv));
                        assert(names.skip(0) =~= names);
                    }
                    let mut k: usize = 0;
                    while k < ext.enums.len()
                        invariant
                            reg == self.deep_view(),
                            reqv == requested.deep_view(),
                            first_unknown(reg.extensions, reqv) is None,
                            qdv == ext_queue(reg, reqv, ns, fallback),
                            goal_c == add_exts_commands(
                                reg,
                                base_commands(reg.commands, ns, version, profile),
                                qdv,
                            ),
                            goal_c == Ok::<Seq<SpecCommand>, Seq<char>>(out_cmds.deep_view()),
                            goal_e == add_exts_enums(
                                reg,
                                base_enums(reg.enums, ns, version, profile),
                                qdv,
                            ),
                            exi < self.extensions@.len(),
                            ext == &self.extensions@[exi as int],
                            extv == reg.extensions[exi as int],
                            names == extv.enums,
                            names.len() == ext.enums.len(),
                            qj < qdv.len(),
                            k <= ext.enums.len(),
                            goal_e == match add_ext_enums(
                                reg.enums,
                                out_enums.deep_view(),
                                names.skip(k as int),
                                extv.name,
                            ) {
                                Err(n) => Err(n),
                                Ok(o2) => add_exts_enums(reg, o2, qdv.skip(qj as int + 1)),
                            },
                        decreases ext.enums.len() - k,
                    {
                        proof {
                            assert(names.skip(k as int)[0] == names[k as int]);
                            assert(names.skip(k as int).drop_first() =~= names.skip(k as int + 1));
                            assert(names[k as int] == ext.enums@[k as int]@);
                        }
                        let nm = &ext.enums[k];
                        match find_enum_idx(&self.enums, nm) {
                            Option::None => {
                            },
                            Some(ci) => {
                                let ghost cand = reg.enums[ci as int];
                                proof {
                                    assert(find_enum(reg.enums, names[k as int]) == Some(cand));
                                }
                                match find_enum_idx(&out_enums, nm) {
                                    Some(oi) => {
                                        let ghost existing = out_enums.deep_view()[oi as int];
                                        if out_enums[oi].value == self.enums[ci].value {
                                            proof {
                                                assert(existing.value == cand.value);
                                            }
                                        } else {
                                            proof {
                                                assert(add_ext_enums(
                                                    reg.enums,
                                                    out_enums.deep_view(),
                                                    names.skip(k as int),
                                                    extv.name,
                                                ) == Err::<Seq<SpecEnumDef>, Seq<char>>(extv.name));
                                                assert(goal_e == Err::<Seq<SpecEnumDef>, Seq<char>>(
                                                    extv.name,
                                                ));
                                            }
                                            return Err(Error::ConflictingExtension(
                                                ext.name.clone(),
                                            ));
                                        }
                                    },
                                    Option::None => {
                                        let ghost pre = out_enums;
                                        let e = copy_enum_def(&self.enums[ci]);
                                        let ghost ge = e;
                                        out_enums.push(e);
                                        proof {
                                            lemma_push_deep(pre, out_enums, ge);
                                            assert(out_enums.deep_view() == pre.deep_view().push(
                                                cand,
                                            ));
                                        }
                                    },
                                }
                            },
                        }
                        k = k + 1;
                    }
                    proof {
                        assert(names.skip(ext.enums.len() as int).len() == 0);
                        assert(add_ext_enums(
                            reg.enums,
                            out_enums.deep_view(),
                            names.skip(ext.enums.len() as int),
                            extv.name,
                        ) == Ok::<Seq<SpecEnumDef>, Seq<char>>(out_enums.deep_view()));
                    }
                },
            }
            qj = qj + 1;
        }
        proof {
            assert(qdv.skip(queue.len() as int).len() == 0);
            assert(goal_e == Ok::<Seq<SpecEnumDef>, Seq<char>>(out_enums.deep_view()));
        }
        // Deterministic output order.
        let sorted_cmds = sort_commands(&out_cmds);
        let sorted_enums = sort_enum_defs(&out_enums);
        let result = ResolvedBindingSet {
            namespace: ns,
            version,
            profile,
            commands: sorted_cmds,
            enums: sorted_enums,
        };
        proof {
            let s = spec_resolve(reg, ns, version, profile, reqv, fallback);
            assert(s is Ok);
            assert(result.deep_view() == s->Ok_0);
        }
        Ok(result)
    }
}

} // verus!
