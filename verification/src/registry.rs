//! In-memory registry model: commands, enums, namespaces, extensions.
//!
//! A registry describes the whole API surface. Each command or enum
//! definition names the namespace universes it belongs to and the
//! version window in which it is part of the base profile. Extensions
//! reference definitions by name and layer them onto a base
//! {namespace, version, profile} configuration.
//!
//! Well-formedness (checked by [`Registry::load`]): two definitions may
//! share a name only if their universes are disjoint (that is how the
//! desktop and embedded variants of one symbol, possibly with different
//! signatures, coexist), and every name an extension references must be
//! defined somewhere in the registry.

use vstd::prelude::*;

verus! {

/// An API version, ordered lexicographically by (major, minor).
#[derive(Debug, Clone, Copy, PartialEq, Eq, Structural)]
pub struct Version {
    pub major: u16,
    pub minor: u16,
}

/// One of the two mutually exclusive API universes.
#[derive(Debug, Clone, Copy, PartialEq, Eq, Structural)]
pub enum Namespace {
    DesktopGl,
    EmbeddedGles,
}

/// A named subset of a namespace version. The core profile honors
/// `removed_core` markers; the compatibility profile keeps everything.
#[derive(Debug, Clone, Copy, PartialEq, Eq, Structural)]
pub enum Profile {
    Core,
    Compatibility,
}

/// Whether fallback-eligible extensions are included implicitly.
/// `RequestedOnly` includes nothing beyond the explicit request; `All`
/// also unions in every extension the registry marks as a standard
/// fallback promotion for the resolved namespace.
#[derive(Debug, Clone, Copy, PartialEq, Eq, Structural)]
pub enum FallbackPolicy {
    RequestedOnly,
    All,
}

/// The set of universes a definition or extension belongs to. Both
/// flags set means the shared common subset.
#[derive(Debug, Clone, Copy, PartialEq, Eq, Structural)]
pub struct Universes {
    pub desktop: bool,
    pub embedded: bool,
}

/// One formal parameter of a command: name and type descriptor.
#[derive(Debug, Clone, PartialEq, Eq)]
pub struct Param {
    pub name: String,
    pub ty: String,
}

/// A command definition. Identity is the name; the signature is the
/// return type descriptor plus the ordered parameter list.
#[derive(Debug, Clone, PartialEq, Eq)]
pub struct Command {
    pub name: String,
    pub ret_ty: String,
    pub params: Vec<Param>,
    pub universes: Universes,
    /// Version at which the command enters the base set of its
    /// universes; absent for extension-only commands.
    pub introduced: Option<Version>,
    /// Version at or before which the core profile excludes it.
    pub removed_core: Option<Version>,
}

/// An enum definition: a plain named integer value. Values may collide
/// across groups; that is intentional and never an error.
#[derive(Debug, Clone, PartialEq, Eq)]
pub struct EnumDef {
    pub name: String,
    pub value: u32,
    pub group: Option<String>,
    pub universes: Universes,
    pub introduced: Option<Version>,
    pub removed_core: Option<Version>,
}

/// An optional add-on layered onto a base configuration. References
/// commands and enums by name; `fallback` marks a standard fallback
/// promotion for the universes it belongs to.
#[derive(Debug, Clone, PartialEq, Eq)]
pub struct Extension {
    pub name: String,
    pub universes: Universes,
    pub fallback: bool,
    pub commands: Vec<String>,
    pub enums: Vec<String>,
}

/// Mathematical image of [`Param`].
pub struct SpecParam {
    pub name: Seq<char>,
    pub ty: Seq<char>,
}

/// Mathematical image of [`Command`].
pub struct SpecCommand {
    pub name: Seq<char>,
    pub ret_ty: Seq<char>,
    pub params: Seq<SpecParam>,
    pub universes: Universes,
    pub introduced: Option<Version>,
    pub removed_core: Option<Version>,
}

/// Mathematical image of [`EnumDef`].
pub struct SpecEnumDef {
    pub name: Seq<char>,
    pub value: u32,
    pub group: Option<Seq<char>>,
    pub universes: Universes,
    pub introduced: Option<Version>,
    pub removed_core: Option<Version>,
}

/// Mathematical image of [`Extension`].
pub struct SpecExtension {
    pub name: Seq<char>,
    pub universes: Universes,
    pub fallback: bool,
    pub commands: Seq<Seq<char>>,
    pub enums: Seq<Seq<char>>,
}

/// Mathematical image of [`Registry`].
pub struct SpecRegistry {
    pub commands: Seq<SpecCommand>,
    pub enums: Seq<SpecEnumDef>,
    pub extensions: Seq<SpecExtension>,
}

impl DeepView for Param {
    type V = SpecParam;

    open spec fn deep_view(&self) -> SpecParam {
        SpecParam { name: self.name@, ty: self.ty@ }
    }
}

impl DeepView for Command {
    type V = SpecCommand;

    open spec fn deep_view(&self) -> SpecCommand {
        SpecCommand {
            name: self.name@,
            ret_ty: self.ret_ty@,
            params: self.params.deep_view(),
            universes: self.universes,
            introduced: self.introduced,
            removed_core: self.removed_core,
        }
    }
}

impl DeepView for EnumDef {
    type V = SpecEnumDef;

    open spec fn deep_view(&self) -> SpecEnumDef {
        SpecEnumDef {
            name: self.name@,
            value: self.value,
            group: self.group.deep_view(),
            universes: self.universes,
            introduced: self.introduced,
            removed_core: self.removed_core,
        }
    }
}

impl DeepView for Extension {
    type V = SpecExtension;

    open spec fn deep_view(&self) -> SpecExtension {
        SpecExtension {
            name: self.name@,
            universes: self.universes,
            fallback: self.fallback,
            commands: self.commands.deep_view(),
            enums: self.enums.deep_view(),
        }
    }
}

/// Do two universe sets share a universe?
pub open spec fn universes_overlap(a: Universes, b: Universes) -> bool {
    (a.desktop && b.desktop) || (a.embedded && b.embedded)
}

/// Is `ns` a member of the universe set `u`?
pub open spec fn in_universe(u: Universes, ns: Namespace) -> bool {
    match ns {
        Namespace::DesktopGl => u.desktop,
        Namespace::EmbeddedGles => u.embedded,
    }
}

/// No two command definitions share a name within one universe.
pub open spec fn commands_distinct(cs: Seq<SpecCommand>) -> bool {
    forall|i: int, j: int|
        0 <= i < j < cs.len() && cs[i].name == cs[j].name ==> !universes_overlap(
            cs[i].universes,
            cs[j].universes,
        )
}

/// No two enum definitions share a name within one universe.
pub open spec fn enums_distinct(es: Seq<SpecEnumDef>) -> bool {
    forall|i: int, j: int|
        0 <= i < j < es.len() && es[i].name == es[j].name ==> !universes_overlap(
            es[i].universes,
            es[j].universes,
        )
}

/// Does any command definition bear the name `n`?
pub open spec fn has_command(cs: Seq<SpecCommand>, n: Seq<char>) -> bool {
    exists|i: int| 0 <= i < cs.len() && cs[i].name == n
}

/// Does any enum definition bear the name `n`?
pub open spec fn has_enum(es: Seq<SpecEnumDef>, n: Seq<char>) -> bool {
    exists|i: int| 0 <= i < es.len() && es[i].name == n
}

/// Every name the extension references is defined in the registry.
pub open spec fn ext_refs_defined(r: SpecRegistry, e: SpecExtension) -> bool {
    &&& forall|k: int| 0 <= k < e.commands.len() ==> has_command(r.commands, #[trigger] e.commands[k])
    &&& forall|k: int| 0 <= k < e.enums.len() ==> has_enum(r.enums, #[trigger] e.enums[k])
}

/// Well-formedness of a registry: the invariant [`Registry::load`]
/// establishes and everything downstream relies on.
pub open spec fn registry_wf(r: SpecRegistry) -> bool {
    &&& commands_distinct(r.commands)
    &&& enums_distinct(r.enums)
    &&& forall|e: int| 0 <= e < r.extensions.len() ==> ext_refs_defined(r, #[trigger] r.extensions[e])
}

/// A validated registry. Read-only after [`Registry::load`].
#[derive(Debug)]
pub struct Registry {
    pub commands: Vec<Command>,
    pub enums: Vec<EnumDef>,
    pub extensions: Vec<Extension>,
}

impl DeepView for Registry {
    type V = SpecRegistry;

    open spec fn deep_view(&self) -> SpecRegistry {
        SpecRegistry {
            commands: self.commands.deep_view(),
            enums: self.enums.deep_view(),
            extensions: self.extensions.deep_view(),
        }
    }
}

/// Does `cs` hold a command named `n`? Mirrors [`has_command`].
fn contains_command(cs: &Vec<Command>, n: &String) -> (r: bool)
    ensures
        r == has_command(cs.deep_view(), n@),
{
    let mut i: usize = 0;
    while i < cs.len()
        invariant
            0 <= i <= cs.len(),
            cs.deep_view().len() == cs.len(),
            forall|t: int| 0 <= t < i ==> cs.deep_view()[t].name != n@,
        decreases cs.len() - i,
    {
        if cs[i].name == *n {
            assert(cs.deep_view()[i as int].name == n@);
            return true;
        }
        i = i + 1;
    }
    false
}

/// Does `es` hold an enum named `n`? Mirrors [`has_enum`].
fn contains_enum(es: &Vec<EnumDef>, n: &String) -> (r: bool)
    ensures
        r == has_enum(es.deep_view(), n@),
{
    let mut i: usize = 0;
    while i < es.len()
        invariant
            0 <= i <= es.len(),
            es.deep_view().len() == es.len(),
            forall|t: int| 0 <= t < i ==> es.deep_view()[t].name != n@,
        decreases es.len() - i,
    {
        if es[i].name == *n {
            assert(es.deep_view()[i as int].name == n@);
            return true;
        }
        i = i + 1;
    }
    false
}

impl Registry {
    /// The registry's own invariant, over its mathematical image.
    pub open spec fn wf(&self) -> bool {
        registry_wf(self.deep_view())
    }

    /// Validates the parsed entries and assembles the registry.
    ///
    /// Fails with `MalformedRegistry` exactly when the entries are not
    /// well-formed: a duplicate name inside one universe (for commands
    /// this is how an incompatible duplicate signature manifests), or
    /// an extension referencing an undefined command or enum name.
    pub fn load(commands: Vec<Command>, enums: Vec<EnumDef>, extensions: Vec<Extension>) -> (r:
        Result<Registry, crate::error::Error>)
        ensures
            match r {
                Ok(reg) => {
                    &&& reg.deep_view() == (SpecRegistry {
                        commands: commands.deep_view(),
                        enums: enums.deep_view(),
                        extensions: extensions.deep_view(),
                    })
                    &&& reg.wf()
                },
                Err(e) => {
                    &&& e == crate::error::Error::MalformedRegistry
                    &&& !registry_wf(
                        SpecRegistry {
                            commands: commands.deep_view(),
                            enums: enums.deep_view(),
                            extensions: extensions.deep_view(),
                        },
                    )
                },
            },
    {
        let ghost sr = SpecRegistry {
            commands: commands.deep_view(),
            enums: enums.deep_view(),
            extensions: extensions.deep_view(),
        };
        // Pairwise name check over commands.
        let mut i: usize = 0;
        while i < commands.len()
            invariant
                sr.commands == commands.deep_view(),
                commands.deep_view().len() == commands.len(),
                forall|p: int, q: int|
                    0 <= p < q < commands.len() && p < i && sr.commands[p].name
                        == sr.commands[q].name ==> !universes_overlap(
                        sr.commands[p].universes,
                        sr.commands[q].universes,
                    ),
            decreases commands.len() - i,
        {
            let mut j: usize = i + 1;
            while j < commands.len()
                invariant
                    sr.commands == commands.deep_view(),
                    commands.deep_view().len() == commands.len(),
                    i < commands.len(),
                    i < j,
                    forall|q: int|
                        i < q < j && sr.commands[i as int].name == sr.commands[q].name
                            ==> !universes_overlap(
                            sr.commands[i as int].universes,
                            sr.commands[q].universes,
                        ),
                decreases commands.len() - j,
            {
                if commands[i].name == commands[j].name {
                    let a = commands[i].universes;
                    let b = commands[j].universes;
                    if (a.desktop && b.desktop) || (a.embedded && b.embedded) {
                        proof {
                            let gi = i as int;
                            let gj = j as int;
                            assert(sr.commands[gi] == commands@[gi].deep_view());
                            assert(sr.commands[gj] == commands@[gj].deep_view());
                            assert(sr.commands[gi].name == sr.commands[gj].name);
                            assert(universes_overlap(
                                sr.commands[gi].universes,
                                sr.commands[gj].universes,
                            ));
                            assert(!commands_distinct(sr.commands));
                        }
                        return Err(crate::error::Error::MalformedRegistry);
                    }
                }
                j = j + 1;
            }
            i = i + 1;
        }
        assert(commands_distinct(sr.commands));
        // Pairwise name check over enums.
        let mut i: usize = 0;
        while i < enums.len()
            invariant
                sr.enums == enums.deep_view(),
                enums.deep_view().len() == enums.len(),
                forall|p: int, q: int|
                    0 <= p < q < enums.len() && p < i && sr.enums[p].name == sr.enums[q].name
                        ==> !universes_overlap(sr.enums[p].universes, sr.enums[q].universes),
            decreases enums.len() - i,
        {
            let mut j: usize = i + 1;
            while j < enums.len()
                invariant
                    sr.enums == enums.deep_view(),
                    enums.deep_view().len() == enums.len(),
                    i < enums.len(),
                    i < j,
                    forall|q: int|
                        i < q < j && sr.enums[i as int].name == sr.enums[q].name
                            ==> !universes_overlap(
                            sr.enums[i as int].universes,
                            sr.enums[q].universes,
                        ),
                decreases enums.len() - j,
            {
                if enums[i].name == enums[j].name {
                    let a = enums[i].universes;
                    let b = enums[j].universes;
                    if (a.desktop && b.desktop) || (a.embedded && b.embedded) {
                        proof {
                            let gi = i as int;
                            let gj = j as int;
                            assert(sr.enums[gi] == enums@[gi].deep_view());
                            assert(sr.enums[gj] == enums@[gj].deep_view());
                            assert(sr.enums[gi].name == sr.enums[gj].name);
                            assert(universes_overlap(
                                sr.enums[gi].universes,
                                sr.enums[gj].universes,
                            ));
                            assert(!enums_distinct(sr.enums));
                        }
                        return Err(crate::error::Error::MalformedRegistry);
                    }
                }
                j = j + 1;
            }
            i = i + 1;
        }
        assert(enums_distinct(sr.enums));
        // Dangling-reference check over extensions.
        let mut e: usize = 0;
        while e < extensions.len()
            invariant
                sr.commands == commands.deep_view(),
                sr.enums == enums.deep_view(),
                sr.extensions == extensions.deep_view(),
                extensions.deep_view().len() == extensions.len(),
                forall|t: int| 0 <= t < e ==> ext_refs_defined(sr, #[trigger] sr.extensions[t]),
            decreases extensions.len() - e,
        {
            let ext = &extensions[e];
            let mut k: usize = 0;
            while k < ext.commands.len()
                invariant
                    sr.commands == commands.deep_view(),
                    sr.enums == enums.deep_view(),
                    sr.extensions == extensions.deep_view(),
                    ext.deep_view() == sr.extensions[e as int],
                    e < extensions.len(),
                    sr.extensions.len() == extensions.len(),
                    ext.commands.deep_view().len() == ext.commands.len(),
                    forall|t: int|
                        0 <= t < k ==> has_command(
                            sr.commands,
                            #[trigger] ext.commands.deep_view()[t],
                        ),
                decreases ext.commands.len() - k,
            {
                if !contains_command(&commands, &ext.commands[k]) {
                    proof {
                        let ge = e as int;
                        let gk = k as int;
                        assert(sr.extensions[ge].commands[gk] == ext.commands.deep_view()[gk]);
                        assert(!has_command(sr.commands, sr.extensions[ge].commands[gk]));
                        assert(!ext_refs_defined(sr, sr.extensions[ge]));
                    }
                    return Err(crate::error::Error::MalformedRegistry);
                }
                k = k + 1;
            }
            let mut k: usize = 0;
            while k < ext.enums.len()
                invariant
                    sr.commands == commands.deep_view(),
                    sr.enums == enums.deep_view(),
                    sr.extensions == extensions.deep_view(),
                    ext.deep_view() == sr.extensions[e as int],
                    e < extensions.len(),
                    sr.extensions.len() == extensions.len(),
                    ext.enums.deep_view().len() == ext.enums.len(),
                    forall|t: int|
                        0 <= t < k ==> has_enum(sr.enums, #[trigger] ext.enums.deep_view()[t]),
                decreases ext.enums.len() - k,
            {
                if !contains_enum(&enums, &ext.enums[k]) {
                    proof {
                        let ge = e as int;
                        let gk = k as int;
                        assert(sr.extensions[ge].enums[gk] == ext.enums.deep_view()[gk]);
                        assert(!has_enum(sr.enums, sr.extensions[ge].enums[gk]));
                        assert(!ext_refs_defined(sr, sr.extensions[ge]));
                    }
                    return Err(crate::error::Error::MalformedRegistry);
                }
                k = k + 1;
            }
            assert(ext_refs_defined(sr, sr.extensions[e as int]));
            e = e + 1;
        }
        let reg = Registry { commands, enums, extensions };
        assert(reg.deep_view() == sr);
        Ok(reg)
    }
}

} // verus!
