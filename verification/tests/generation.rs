use gleam::emit::{emit, Strategy};
use gleam::error::Error;
use gleam::loader::SymbolTable;
use gleam::platform::{select, EmbeddedTier};
use gleam::registry::{
    Command, EnumDef, Extension, FallbackPolicy, Namespace, Param, Profile, Registry, Universes,
    Version,
};

fn v(major: u16, minor: u16) -> Version {
    Version { major, minor }
}

fn both() -> Universes {
    Universes { desktop: true, embedded: true }
}

fn desktop() -> Universes {
    Universes { desktop: true, embedded: false }
}

fn embedded() -> Universes {
    Universes { desktop: false, embedded: true }
}

fn cmd(
    name: &str,
    ret: &str,
    params: &[(&str, &str)],
    u: Universes,
    introduced: Option<Version>,
    removed_core: Option<Version>,
) -> Command {
    Command {
        name: name.to_string(),
        ret_ty: ret.to_string(),
        params: params
            .iter()
            .map(|(n, t)| Param { name: n.to_string(), ty: t.to_string() })
            .collect(),
        universes: u,
        introduced,
        removed_core,
    }
}

fn enm(
    name: &str,
    value: u32,
    u: Universes,
    introduced: Option<Version>,
    removed_core: Option<Version>,
) -> EnumDef {
    EnumDef { name: name.to_string(), value, group: None, universes: u, introduced, removed_core }
}

fn ext(name: &str, u: Universes, fallback: bool, commands: &[&str], enums: &[&str]) -> Extension {
    Extension {
        name: name.to_string(),
        universes: u,
        fallback,
        commands: commands.iter().map(|s| s.to_string()).collect(),
        enums: enums.iter().map(|s| s.to_string()).collect(),
    }
}

fn names(r: &gleam::resolver::ResolvedBindingSet) -> Vec<String> {
    r.commands.iter().map(|c| c.name.clone()).collect()
}

/// A small registry exercising both universes, version windows,
/// removals, extension-only symbols, a fallback promotion, and a
/// cross-universe signature divergence.
fn sample_registry() -> Registry {
    let commands = vec![
        // Divergent signatures across disjoint universes; the embedded
        // definition comes first in registry order on purpose.
        cmd("glShadeModel", "void", &[("mode", "GLfixed")], embedded(), Some(v(1, 0)), None),
        cmd("glShadeModel", "void", &[("mode", "GLenum")], desktop(), Some(v(1, 0)), Some(v(3, 1))),
        cmd("glBegin", "void", &[("mode", "GLenum")], desktop(), Some(v(1, 0)), Some(v(3, 1))),
        cmd("glDrawArrays", "void", &[("mode", "GLenum"), ("first", "GLint"), ("count", "GLsizei")], both(), Some(v(1, 1)), None),
        cmd("glActiveTexture", "void", &[("texture", "GLenum")], both(), Some(v(1, 3)), None),
        cmd("glTexImage3D", "void", &[("target", "GLenum")], desktop(), Some(v(1, 2)), None),
        cmd("glFlush", "void", &[], both(), Some(v(1, 0)), None),
        cmd("glTexRectangleARB", "void", &[("target", "GLenum")], desktop(), None, None),
        cmd("glBindVertexArrayOES", "void", &[("array", "GLuint")], embedded(), None, None),
    ];
    let enums = vec![
        enm("GL_DEPTH_TEST", 0x0B71, both(), Some(v(1, 0)), None),
        enm("GL_RGBA", 0x1908, both(), Some(v(1, 0)), None),
        enm("GL_TEXTURE_RECTANGLE_ARB", 0x84F5, desktop(), None, None),
        enm("GL_VERTEX_ARRAY_BINDING_OES", 0x85B5, embedded(), None, None),
    ];
    let extensions = vec![
        ext(
            "GL_ARB_texture_rectangle",
            desktop(),
            false,
            &["glTexRectangleARB"],
            &["GL_TEXTURE_RECTANGLE_ARB"],
        ),
        ext(
            "GL_OES_vertex_array_object",
            embedded(),
            true,
            &["glBindVertexArrayOES"],
            &["GL_VERTEX_ARRAY_BINDING_OES"],
        ),
        // References the first (embedded) glShadeModel definition, so
        // adding it to a desktop resolution conflicts with the base.
        ext("GL_EXT_shade_model", desktop(), false, &["glShadeModel"], &[]),
    ];
    Registry::load(commands, enums, extensions).unwrap()
}

#[test]
fn resolution_is_deterministic() {
    let reg = sample_registry();
    let r1 = reg
        .resolve(Namespace::DesktopGl, v(3, 3), Profile::Core, &vec![], FallbackPolicy::RequestedOnly)
        .unwrap();
    let r2 = reg
        .resolve(Namespace::DesktopGl, v(3, 3), Profile::Core, &vec![], FallbackPolicy::RequestedOnly)
        .unwrap();
    assert_eq!(r1, r2);
    let t1 = emit(&r1, Strategy::Static, "GL");
    let t2 = emit(&r2, Strategy::Static, "GL");
    assert_eq!(t1, t2);
}

#[test]
fn duplicate_extension_request_is_idempotent() {
    let reg = sample_registry();
    let once = reg
        .resolve(
            Namespace::DesktopGl,
            v(3, 3),
            Profile::Core,
            &vec!["GL_ARB_texture_rectangle".to_string()],
            FallbackPolicy::RequestedOnly,
        )
        .unwrap();
    let twice = reg
        .resolve(
            Namespace::DesktopGl,
            v(3, 3),
            Profile::Core,
            &vec![
                "GL_ARB_texture_rectangle".to_string(),
                "GL_ARB_texture_rectangle".to_string(),
            ],
            FallbackPolicy::RequestedOnly,
        )
        .unwrap();
    assert_eq!(once, twice);
}

#[test]
fn later_version_is_superset_except_removed() {
    let reg = sample_registry();
    let early = reg
        .resolve(Namespace::DesktopGl, v(1, 1), Profile::Core, &vec![], FallbackPolicy::RequestedOnly)
        .unwrap();
    let late = reg
        .resolve(Namespace::DesktopGl, v(3, 3), Profile::Core, &vec![], FallbackPolicy::RequestedOnly)
        .unwrap();
    let late_names = names(&late);
    for c in &early.commands {
        let removed = match c.removed_core {
            Some(rv) => {
                rv.major < 3 || (rv.major == 3 && rv.minor <= 3)
            }
            None => false,
        };
        if !removed {
            assert!(late_names.contains(&c.name), "{} missing at 3.3", c.name);
        }
    }
    // And the removals really drop out at the later core version.
    assert!(names(&early).contains(&"glBegin".to_string()));
    assert!(!late_names.contains(&"glBegin".to_string()));
}

#[test]
fn output_is_sorted_by_version_then_name() {
    let reg = sample_registry();
    let r = reg
        .resolve(Namespace::DesktopGl, v(3, 3), Profile::Core, &vec![], FallbackPolicy::RequestedOnly)
        .unwrap();
    let expected = vec!["glFlush", "glDrawArrays", "glTexImage3D", "glActiveTexture"];
    assert_eq!(names(&r), expected);
}

#[test]
fn unknown_extension_is_rejected() {
    let reg = sample_registry();
    let r = reg.resolve(
        Namespace::DesktopGl,
        v(3, 3),
        Profile::Core,
        &vec!["GL_ARB_nonexistent".to_string()],
        FallbackPolicy::RequestedOnly,
    );
    assert_eq!(r.unwrap_err(), Error::UnknownExtension("GL_ARB_nonexistent".to_string()));
}

#[test]
fn conflicting_extension_is_rejected() {
    let reg = sample_registry();
    let r = reg.resolve(
        Namespace::DesktopGl,
        v(1, 0),
        Profile::Core,
        &vec!["GL_EXT_shade_model".to_string()],
        FallbackPolicy::RequestedOnly,
    );
    assert_eq!(r.unwrap_err(), Error::ConflictingExtension("GL_EXT_shade_model".to_string()));
}

#[test]
fn desktop_with_texture_rectangle_end_to_end() {
    let reg = sample_registry();
    let r = reg
        .resolve(
            Namespace::DesktopGl,
            v(3, 3),
            Profile::Core,
            &vec!["GL_ARB_texture_rectangle".to_string()],
            FallbackPolicy::RequestedOnly,
        )
        .unwrap();
    let cmd_names = names(&r);
    assert!(cmd_names.contains(&"glTexRectangleARB".to_string()));
    // Extension-only symbols carry no introduction version and sort
    // after every versioned one.
    assert_eq!(cmd_names.last().unwrap(), "glTexRectangleARB");
    let enum_names: Vec<String> = r.enums.iter().map(|e| e.name.clone()).collect();
    assert!(enum_names.contains(&"GL_TEXTURE_RECTANGLE_ARB".to_string()));
    // No embedded-only symbol leaks into a desktop resolution.
    assert!(!cmd_names.contains(&"glBindVertexArrayOES".to_string()));
    assert!(!enum_names.contains(&"GL_VERTEX_ARRAY_BINDING_OES".to_string()));
}

#[test]
fn embedded_fallback_promotion_end_to_end() {
    let reg = sample_registry();
    let r = reg
        .resolve(Namespace::EmbeddedGles, v(3, 0), Profile::Core, &vec![], FallbackPolicy::All)
        .unwrap();
    let cmd_names = names(&r);
    assert!(cmd_names.contains(&"glBindVertexArrayOES".to_string()));
    let enum_names: Vec<String> = r.enums.iter().map(|e| e.name.clone()).collect();
    assert!(enum_names.contains(&"GL_VERTEX_ARRAY_BINDING_OES".to_string()));
    // Without the fallback policy the promotion stays out.
    let plain = reg
        .resolve(
            Namespace::EmbeddedGles,
            v(3, 0),
            Profile::Core,
            &vec![],
            FallbackPolicy::RequestedOnly,
        )
        .unwrap();
    assert!(!names(&plain).contains(&"glBindVertexArrayOES".to_string()));
}

#[test]
fn compatibility_profile_keeps_removed_symbols() {
    let reg = sample_registry();
    let r = reg
        .resolve(
            Namespace::DesktopGl,
            v(3, 3),
            Profile::Compatibility,
            &vec![],
            FallbackPolicy::RequestedOnly,
        )
        .unwrap();
    assert!(names(&r).contains(&"glBegin".to_string()));
}

#[test]
fn load_rejects_duplicate_in_one_universe() {
    let commands = vec![
        cmd("glFlush", "void", &[], both(), Some(v(1, 0)), None),
        cmd("glFlush", "GLenum", &[], desktop(), Some(v(1, 0)), None),
    ];
    let r = Registry::load(commands, vec![], vec![]);
    assert_eq!(r.unwrap_err(), Error::MalformedRegistry);
}

#[test]
fn load_rejects_dangling_extension_reference() {
    let commands = vec![cmd("glFlush", "void", &[], both(), Some(v(1, 0)), None)];
    let extensions = vec![ext("GL_EXT_missing", both(), false, &["glNotDefined"], &[])];
    let r = Registry::load(commands, vec![], extensions);
    assert_eq!(r.unwrap_err(), Error::MalformedRegistry);
}

#[test]
fn load_accepts_disjoint_universe_duplicates() {
    let commands = vec![
        cmd("glShadeModel", "void", &[("mode", "GLfixed")], embedded(), Some(v(1, 0)), None),
        cmd("glShadeModel", "void", &[("mode", "GLenum")], desktop(), Some(v(1, 0)), None),
    ];
    assert!(Registry::load(commands, vec![], vec![]).is_ok());
}

#[test]
fn emit_static_exact_text() {
    let commands = vec![cmd("glFlush", "void", &[], both(), Some(v(1, 0)), None)];
    let enums = vec![enm("GL_DEPTH_TEST", 0x0B71, both(), Some(v(1, 0)), None)];
    let reg = Registry::load(commands, enums, vec![]).unwrap();
    let r = reg
        .resolve(Namespace::DesktopGl, v(3, 3), Profile::Core, &vec![], FallbackPolicy::RequestedOnly)
        .unwrap();
    let text = emit(&r, Strategy::Static, "GL");
    assert_eq!(
        text,
        "/* DesktopGL 3.3 core static */\n/* link: GL */\nvoid glFlush();\n#define GL_DEPTH_TEST 2929\n"
    );
}

#[test]
fn emit_static_renders_parameters() {
    let commands = vec![cmd(
        "glDrawArrays",
        "void",
        &[("mode", "GLenum"), ("first", "GLint"), ("count", "GLsizei")],
        both(),
        Some(v(1, 1)),
        None,
    )];
    let reg = Registry::load(commands, vec![], vec![]).unwrap();
    let r = reg
        .resolve(Namespace::DesktopGl, v(3, 3), Profile::Core, &vec![], FallbackPolicy::RequestedOnly)
        .unwrap();
    let text = emit(&r, Strategy::Static, "GL");
    assert_eq!(
        text,
        "/* DesktopGL 3.3 core static */\n/* link: GL */\nvoid glDrawArrays(GLenum mode, GLint first, GLsizei count);\n"
    );
}

#[test]
fn emit_dynamic_exact_text() {
    let commands = vec![cmd("glFlush", "void", &[], both(), Some(v(1, 0)), None)];
    let enums = vec![enm("GL_DEPTH_TEST", 0x0B71, both(), Some(v(1, 0)), None)];
    let reg = Registry::load(commands, enums, vec![]).unwrap();
    let r = reg
        .resolve(Namespace::EmbeddedGles, v(3, 0), Profile::Core, &vec![], FallbackPolicy::RequestedOnly)
        .unwrap();
    let text = emit(&r, Strategy::Dynamic, "GLESv2");
    let expected = "/* EmbeddedGLES 3.0 core dynamic */\n/* link: GLESv2 */\nstruct api_table {\n    void (*glFlush)();\n};\nvoid api_load(struct api_table *t, void *(*get)(const char *n)) {\n    t->glFlush = get(\"glFlush\");\n}\n#define GL_DEPTH_TEST 2929\n";
    assert_eq!(text, expected);
}

#[test]
fn select_recognizes_the_table() {
    let c = select("x86_64-unknown-linux-gnu", EmbeddedTier::Gles3).unwrap();
    assert_eq!(c.namespace, Namespace::DesktopGl);
    assert_eq!(c.version, v(3, 3));
    assert_eq!(c.profile, Profile::Core);
    assert_eq!(c.link_lib, "GL");
    assert_eq!(c.strategy, Strategy::Static);

    let c = select("aarch64-linux-android", EmbeddedTier::Gles3).unwrap();
    assert_eq!(c.namespace, Namespace::EmbeddedGles);
    assert_eq!(c.version, v(3, 0));
    assert_eq!(c.link_lib, "GLESv2");

    let c = select("arm-linux-androideabi", EmbeddedTier::Gles2).unwrap();
    assert_eq!(c.version, v(2, 0));

    let c = select("x86_64-pc-windows-msvc", EmbeddedTier::Gles2).unwrap();
    assert_eq!(c.link_lib, "opengl32");

    let c = select("aarch64-apple-darwin", EmbeddedTier::Gles2).unwrap();
    assert_eq!(c.link_lib, "OpenGL");
}

#[test]
fn select_rejects_unknown_target() {
    let r = select("wasm32-unknown-unknown", EmbeddedTier::Gles2);
    assert_eq!(r.unwrap_err(), Error::UnsupportedTarget);
}

#[test]
fn symbol_table_lookup() {
    let mut t = SymbolTable::new();
    t.record("glFlush".to_string(), 0x1234);
    t.record("glFinish".to_string(), 0);
    assert_eq!(t.len(), 2);
    assert_eq!(t.lookup("glFlush").unwrap(), 0x1234);
    assert_eq!(
        t.lookup("glFinish").unwrap_err(),
        Error::SymbolUnavailable("glFinish".to_string())
    );
    assert_eq!(
        t.lookup("glMissing").unwrap_err(),
        Error::SymbolUnavailable("glMissing".to_string())
    );
}

#[test]
fn generate_runs_the_whole_phase() {
    let reg = sample_registry();
    let commands = vec![cmd("glFlush", "void", &[], both(), Some(v(1, 0)), None)];
    let small = Registry::load(commands, vec![], vec![]).unwrap();
    let cfg = select("x86_64-unknown-linux-gnu", EmbeddedTier::Gles3).unwrap();
    let text = gleam::emit::generate(&small, &cfg, &vec![], FallbackPolicy::RequestedOnly).unwrap();
    assert_eq!(text, "/* DesktopGL 3.3 core static */\n/* link: GL */\nvoid glFlush();\n");
    let err = gleam::emit::generate(
        &reg,
        &cfg,
        &vec!["GL_ARB_nonexistent".to_string()],
        FallbackPolicy::RequestedOnly,
    );
    assert_eq!(err.unwrap_err(), Error::UnknownExtension("GL_ARB_nonexistent".to_string()));
}
