//! Binding emission: renders a resolved binding set as source text.
//!
//! The output is C-flavored declaration text. Under the static
//! strategy every command becomes one foreign declaration the system
//! linker resolves, after a link directive naming the library to link
//! against. Under the dynamic strategy the commands become one
//! function-pointer field each in a single table structure, plus a
//! loader routine that fills every field by symbol name through a
//! caller-supplied lookup; the consumer runs the loader exactly once
//! before first use, and the table is read-only afterwards. Enum
//! constants are emitted as plain named integer values (decimal);
//! value collisions across groups are intentional and preserved.
//!
//! The whole text is pinned, character for character, to
//! [`spec_emit`], so emission is deterministic by construction.

use vstd::prelude::*;
use vstd::string::StringExecFns;
use crate::error::Error;
use crate::registry::{FallbackPolicy, Namespace, Profile, Registry, SpecCommand, SpecEnumDef, SpecParam, Version};
use crate::resolver::{spec_resolve, ResolvedBindingSet};

verus! {

/// How the bindings are resolved to native code: at link time, or at
/// run time through a lazily filled function-pointer table.
#[derive(Debug, Clone, Copy, PartialEq, Eq, Structural)]
pub enum Strategy {
    Static,
    Dynamic,
}

/// Namespace label in the emitted header.
pub open spec fn ns_text(ns: Namespace) -> Seq<char> {
    match ns {
        Namespace::DesktopGl => "DesktopGL"@,
        Namespace::EmbeddedGles => "EmbeddedGLES"@,
    }
}

/// Profile label in the emitted header.
pub open spec fn profile_text(p: Profile) -> Seq<char> {
    match p {
        Profile::Core => "core"@,
        Profile::Compatibility => "compatibility"@,
    }
}

/// Strategy label in the emitted header.
pub open spec fn strategy_text(s: Strategy) -> Seq<char> {
    match s {
        Strategy::Static => "static"@,
        Strategy::Dynamic => "dynamic"@,
    }
}

/// One decimal digit.
pub open spec fn digit_text(d: int) -> Seq<char> {
    if d == 0 {
        "0"@
    } else if d == 1 {
        "1"@
    } else if d == 2 {
        "2"@
    } else if d == 3 {
        "3"@
    } else if d == 4 {
        "4"@
    } else if d == 5 {
        "5"@
    } else if d == 6 {
        "6"@
    } else if d == 7 {
        "7"@
    } else if d == 8 {
        "8"@
    } else {
        "9"@
    }
}

/// Decimal rendering of a nonnegative integer, most significant digit
/// first.
pub open spec fn dec_text(n: int) -> Seq<char>
    decreases n,
{
    if n < 10 {
        digit_text(n)
    } else {
        dec_text(n / 10) + digit_text(n % 10)
    }
}

/// One parameter: type descriptor, space, name.
pub open spec fn param_text(p: SpecParam) -> Seq<char> {
    p.ty + " "@ + p.name
}

/// The parameter list, comma-separated.
pub open spec fn params_text(ps: Seq<SpecParam>) -> Seq<char>
    decreases ps.len(),
{
    if ps.len() == 0 {
        Seq::empty()
    } else if ps.len() == 1 {
        param_text(ps[0])
    } else {
        params_text(ps.drop_last()) + ", "@ + param_text(ps.last())
    }
}

/// One foreign declaration under the static strategy.
pub open spec fn static_cmd_text(c: SpecCommand) -> Seq<char> {
    c.ret_ty + " "@ + c.name + "("@ + params_text(c.params) + ");\n"@
}

/// One function-pointer field under the dynamic strategy.
pub open spec fn dynamic_ptr_text(c: SpecCommand) -> Seq<char> {
    "    "@ + c.ret_ty + " (*"@ + c.name + ")("@ + params_text(c.params) + ");\n"@
}

/// One loader line under the dynamic strategy: fills the field by
/// symbol name through the caller-supplied lookup.
pub open spec fn dynamic_load_text(c: SpecCommand) -> Seq<char> {
    "    t->"@ + c.name + " = get(\""@ + c.name + "\");\n"@
}

/// One named integer constant.
pub open spec fn enum_text(e: SpecEnumDef) -> Seq<char> {
    "#define "@ + e.name + " "@ + dec_text(e.value as int) + "\n"@
}

/// All static declarations, in set order.
pub open spec fn static_cmds_text(cs: Seq<SpecCommand>) -> Seq<char>
    decreases cs.len(),
{
    if cs.len() == 0 {
        Seq::empty()
    } else {
        static_cmds_text(cs.drop_last()) + static_cmd_text(cs.last())
    }
}

/// All pointer fields, in set order.
pub open spec fn dynamic_ptrs_text(cs: Seq<SpecCommand>) -> Seq<char>
    decreases cs.len(),
{
    if cs.len() == 0 {
        Seq::empty()
    } else {
        dynamic_ptrs_text(cs.drop_last()) + dynamic_ptr_text(cs.last())
    }
}

/// All loader lines, in set order.
pub open spec fn dynamic_loads_text(cs: Seq<SpecCommand>) -> Seq<char>
    decreases cs.len(),
{
    if cs.len() == 0 {
        Seq::empty()
    } else {
        dynamic_loads_text(cs.drop_last()) + dynamic_load_text(cs.last())
    }
}

/// All enum constants, in set order.
pub open spec fn enums_text(es: Seq<SpecEnumDef>) -> Seq<char>
    decreases es.len(),
{
    if es.len() == 0 {
        Seq::empty()
    } else {
        enums_text(es.drop_last()) + enum_text(es.last())
    }
}

/// The header comment naming the configuration the set was resolved
/// for.
pub open spec fn header_text(ns: Namespace, v: Version, p: Profile, s: Strategy) -> Seq<char> {
    "/* "@ + ns_text(ns) + " "@ + dec_text(v.major as int) + "."@ + dec_text(v.minor as int)
        + " "@ + profile_text(p) + " "@ + strategy_text(s) + " */\n"@
}

/// The link directive naming the system library to link against.
pub open spec fn link_text(lib: Seq<char>) -> Seq<char> {
    "/* link: "@ + lib + " */\n"@
}

/// The whole emitted text for one resolved set, strategy, and link
/// library.
pub open spec fn spec_emit(
    rs: crate::resolver::SpecResolved,
    strat: Strategy,
    lib: Seq<char>,
) -> Seq<char> {
    match strat {
        Strategy::Static => header_text(rs.namespace, rs.version, rs.profile, strat) + link_text(
            lib,
        ) + static_cmds_text(rs.commands) + enums_text(rs.enums),
        Strategy::Dynamic => header_text(rs.namespace, rs.version, rs.profile, strat) + link_text(
            lib,
        ) + "struct api_table {\n"@ + dynamic_ptrs_text(rs.commands) + "};\n"@
            + "void api_load(struct api_table *t, void *(*get)(const char *n)) {\n"@
            + dynamic_loads_text(rs.commands) + "}\n"@ + enums_text(rs.enums),
    }
}

/// One decimal digit as text.
fn digit_str(d: u32) -> (r: &'static str)
    requires
        d < 10,
    ensures
        r@ == digit_text(d as int),
{
    if d == 0 {
        "0"
    } else if d == 1 {
        "1"
    } else if d == 2 {
        "2"
    } else if d == 3 {
        "3"
    } else if d == 4 {
        "4"
    } else if d == 5 {
        "5"
    } else if d == 6 {
        "6"
    } else if d == 7 {
        "7"
    } else if d == 8 {
        "8"
    } else {
        "9"
    }
}

/// Decimal rendering of a number; mirrors [`dec_text`].
fn dec_render(n: u32) -> (r: String)
    ensures
        r@ == dec_text(n as int),
    decreases n,
{
    if n < 10 {
        String::from_str(digit_str(n))
    } else {
        let mut s = dec_render(n / 10);
        s.append(digit_str(n % 10));
        s
    }
}

/// Renders the parameter list; mirrors [`params_text`].
fn render_params(s: &mut String, params: &Vec<crate::registry::Param>)
    ensures
        final(s)@ == old(s)@ + params_text(params.deep_view()),
{
    let ghost base = s@;
    let ghost pv = params.deep_view();
    let mut i: usize = 0;
    proof {
        assert(pv.take(0) =~= Seq::<SpecParam>::empty());
        assert(s@ =~= base + params_text(pv.take(0)));
    }
    while i < params.len()
        invariant
            pv == params.deep_view(),
            pv.len() == params.len(),
            i <= params.len(),
            s@ == base + params_text(pv.take(i as int)),
        decreases params.len() - i,
    {
        proof {
            assert(pv.take(i as int + 1).drop_last() =~= pv.take(i as int));
            assert(pv.take(i as int + 1).last() == pv[i as int]);
        }
        if i > 0 {
            s.append(", ");
        }
        s.append(params[i].ty.as_str());
        s.append(" ");
        s.append(params[i].name.as_str());
        proof {
            if i == 0 {
                assert(params_text(pv.take(1)) == param_text(pv[0]));
                assert(s@ =~= base + params_text(pv.take(1)));
            } else {
                assert(params_text(pv.take(i as int + 1)) == params_text(pv.take(i as int))
                    + ", "@ + param_text(pv[i as int]));
                assert(s@ =~= base + params_text(pv.take(i as int + 1)));
            }
        }
        i = i + 1;
    }
    proof {
        assert(pv.take(params.len() as int) =~= pv);
    }
}

/// Emits the source text for a resolved binding set: the header and
/// link directive, then one declaration (static) or one table field
/// plus one loader line (dynamic) per command, then one named
/// constant per enum. Returns exactly [`spec_emit`] of the set, so
/// repeated emission over identical input is byte-identical.
pub fn emit(rs: &ResolvedBindingSet, strat: Strategy, lib: &str) -> (r: String)
    ensures
        r@ == spec_emit(rs.deep_view(), strat, lib@),
{
    let ghost rv = rs.deep_view();
    let mut s = String::new();
    // Header.
    s.append("/* ");
    match rs.namespace {
        Namespace::DesktopGl => s.append("DesktopGL"),
        Namespace::EmbeddedGles => s.append("EmbeddedGLES"),
    }
    s.append(" ");
    let maj = dec_render(rs.version.major as u32);
    s.append(maj.as_str());
    s.append(".");
    let min = dec_render(rs.version.minor as u32);
    s.append(min.as_str());
    s.append(" ");
    match rs.profile {
        Profile::Core => s.append("core"),
        Profile::Compatibility => s.append("compatibility"),
    }
    s.append(" ");
    match strat {
        Strategy::Static => s.append("static"),
        Strategy::Dynamic => s.append("dynamic"),
    }
    s.append(" */\n");
    proof {
        assert(s@ =~= header_text(rv.namespace, rv.version, rv.profile, strat));
    }
    let ghost h = s@;
    // Link directive.
    s.append("/* link: ");
    s.append(lib);
    s.append(" */\n");
    proof {
        assert(s@ =~= h + link_text(lib@));
    }
    let ghost hl = s@;
    match strat {
        Strategy::Static => {
            // Declarations.
            let mut i: usize = 0;
            proof {
                assert(rv.commands.take(0) =~= Seq::<SpecCommand>::empty());
                assert(s@ =~= hl + static_cmds_text(rv.commands.take(0)));
            }
            while i < rs.commands.len()
                invariant
                    strat == Strategy::Static,
                    rv == rs.deep_view(),
                    rv.commands.len() == rs.commands.len(),
                    i <= rs.commands.len(),
                    s@ == hl + static_cmds_text(rv.commands.take(i as int)),
                decreases rs.commands.len() - i,
            {
                proof {
                    assert(rv.commands.take(i as int + 1).drop_last() =~= rv.commands.take(
                        i as int,
                    ));
                    assert(rv.commands.take(i as int + 1).last() == rv.commands[i as int]);
                }
                let c = &rs.commands[i];
                s.append(c.ret_ty.as_str());
                s.append(" ");
                s.append(c.name.as_str());
                s.append("(");
                render_params(&mut s, &c.params);
                s.append(");\n");
                proof {
                    assert(s@ =~= hl + static_cmds_text(rv.commands.take(i as int + 1)));
                }
                i = i + 1;
            }
            proof {
                assert(rv.commands.take(rs.commands.len() as int) =~= rv.commands);
            }
            let ghost hc = s@;
            // Constants.
            let mut j: usize = 0;
            proof {
                assert(rv.enums.take(0) =~= Seq::<SpecEnumDef>::empty());
                assert(s@ =~= hc + enums_text(rv.enums.take(0)));
            }
            while j < rs.enums.len()
                invariant
                    rv == rs.deep_view(),
                    rv.enums.len() == rs.enums.len(),
                    j <= rs.enums.len(),
                    hc == hl + static_cmds_text(rv.commands),
                    strat == Strategy::Static,
                    hl == header_text(rv.namespace, rv.version, rv.profile, strat) + link_text(
                        lib@,
                    ),
                    s@ == hc + enums_text(rv.enums.take(j as int)),
                decreases rs.enums.len() - j,
            {
                proof {
                    assert(rv.enums.take(j as int + 1).drop_last() =~= rv.enums.take(j as int));
                    assert(rv.enums.take(j as int + 1).last() == rv.enums[j as int]);
                }
                let e = &rs.enums[j];
                s.append("#define ");
                s.append(e.name.as_str());
                s.append(" ");
                let val = dec_render(e.value);
                s.append(val.as_str());
                s.append("\n");
                proof {
                    assert(s@ =~= hc + enums_text(rv.enums.take(j as int + 1)));
                }
                j = j + 1;
            }
            proof {
                assert(rv.enums.take(rs.enums.len() as int) =~= rv.enums);
                assert(s@ =~= spec_emit(rv, strat, lib@));
            }
        },
        Strategy::Dynamic => {
            s.append("struct api_table {\n");
            let ghost h1 = s@;
            proof {
                assert(h1 =~= hl + "struct api_table {\n"@);
            }
            // Pointer fields.
            let mut i: usize = 0;
            proof {
                assert(rv.commands.take(0) =~= Seq::<SpecCommand>::empty());
                assert(s@ =~= h1 + dynamic_ptrs_text(rv.commands.take(0)));
            }
            while i < rs.commands.len()
                invariant
                    rv == rs.deep_view(),
                    rv.commands.len() == rs.commands.len(),
                    i <= rs.commands.len(),
                    s@ == h1 + dynamic_ptrs_text(rv.commands.take(i as int)),
                decreases rs.commands.len() - i,
            {
                proof {
                    assert(rv.commands.take(i as int + 1).drop_last() =~= rv.commands.take(
                        i as int,
                    ));
                    assert(rv.commands.take(i as int + 1).last() == rv.commands[i as int]);
                }
                let c = &rs.commands[i];
                s.append("    ");
                s.append(c.ret_ty.as_str());
                s.append(" (*");
                s.append(c.name.as_str());
                s.append(")(");
                render_params(&mut s, &c.params);
                s.append(");\n");
                proof {
                    assert(s@ =~= h1 + dynamic_ptrs_text(rv.commands.take(i as int + 1)));
                }
                i = i + 1;
            }
            proof {
                assert(rv.commands.take(rs.commands.len() as int) =~= rv.commands);
            }
            s.append("};\n");
            s.append("void api_load(struct api_table *t, void *(*get)(const char *n)) {\n");
            let ghost h2 = s@;
            proof {
                assert(h2 =~= hl + "struct api_table {\n"@ + dynamic_ptrs_text(rv.commands)
                    + "};\n"@
                    + "void api_load(struct api_table *t, void *(*get)(const char *n)) {\n"@);
            }
            // Loader lines.
            let mut i: usize = 0;
            proof {
                assert(rv.commands.take(0) =~= Seq::<SpecCommand>::empty());
                assert(s@ =~= h2 + dynamic_loads_text(rv.commands.take(0)));
            }
            while i < rs.commands.len()
                invariant
                    rv == rs.deep_view(),
                    rv.commands.len() == rs.commands.len(),
                    i <= rs.commands.len(),
                    s@ == h2 + dynamic_loads_text(rv.commands.take(i as int)),
                decreases rs.commands.len() - i,
            {
                proof {
                    assert(rv.commands.take(i as int + 1).drop_last() =~= rv.commands.take(
                        i as int,
                    ));
                    assert(rv.commands.take(i as int + 1).last() == rv.commands[i as int]);
                }
                let c = &rs.commands[i];
                s.append("    t->");
                s.append(c.name.as_str());
                s.append(" = get(\"");
                s.append(c.name.as_str());
                s.append("\");\n");
                proof {
                    assert(s@ =~= h2 + dynamic_loads_text(rv.commands.take(i as int + 1)));
                }
                i = i + 1;
            }
            proof {
                assert(rv.commands.take(rs.commands.len() as int) =~= rv.commands);
            }
            s.append("}\n");
            let ghost h3 = s@;
            // Constants.
            let mut j: usize = 0;
            proof {
                assert(rv.enums.take(0) =~= Seq::<SpecEnumDef>::empty());
                assert(s@ =~= h3 + enums_text(rv.enums.take(0)));
            }
            while j < rs.enums.len()
                invariant
                    rv == rs.deep_view(),
                    rv.enums.len() == rs.enums.len(),
                    j <= rs.enums.len(),
                    strat == Strategy::Dynamic,
                    hl == header_text(rv.namespace, rv.version, rv.profile, strat) + link_text(
                        lib@,
                    ),
                    h2 == hl + "struct api_table {\n"@ + dynamic_ptrs_text(rv.commands) + "};\n"@
                        + "void api_load(struct api_table *t, void *(*get)(const char *n)) {\n"@,
                    h3 == h2 + dynamic_loads_text(rv.commands) + "}\n"@,
                    s@ == h3 + enums_text(rv.enums.take(j as int)),
                decreases rs.enums.len() - j,
            {
                proof {
                    assert(rv.enums.take(j as int + 1).drop_last() =~= rv.enums.take(j as int));
                    assert(rv.enums.take(j as int + 1).last() == rv.enums[j as int]);
                }
                let e = &rs.enums[j];
                s.append("#define ");
                s.append(e.name.as_str());
                s.append(" ");
                let val = dec_render(e.value);
                s.append(val.as_str());
                s.append("\n");
                proof {
                    assert(s@ =~= h3 + enums_text(rv.enums.take(j as int + 1)));
                }
                j = j + 1;
            }
            proof {
                assert(rv.enums.take(rs.enums.len() as int) =~= rv.enums);
                assert(s@ =~= spec_emit(rv, strat, lib@));
            }
        },
    }
    s
}

/// The whole generation phase for one configuration: resolves the
/// binding set and emits its text. Fails exactly when resolution
/// fails, and emits nothing then: no partial binding set is ever
/// rendered.
pub fn generate(
    reg: &Registry,
    cfg: &crate::platform::TargetConfiguration,
    requested: &Vec<String>,
    fallback: FallbackPolicy,
) -> (r: Result<String, Error>)
    ensures
        ({
            let s = spec_resolve(
                reg.deep_view(),
                cfg.namespace,
                cfg.version,
                cfg.profile,
                requested.deep_view(),
                fallback,
            );
            match r {
                Ok(text) => s is Ok && text@ == spec_emit(s->Ok_0, cfg.strategy, cfg.link_lib@),
                Err(e) => s is Err && e.deep_view() == s->Err_0,
            }
        }),
{
    match reg.resolve(cfg.namespace, cfg.version, cfg.profile, requested, fallback) {
        Ok(resolved) => Ok(emit(&resolved, cfg.strategy, cfg.link_lib.as_str())),
        Err(e) => Err(e),
    }
}

} // verus!
