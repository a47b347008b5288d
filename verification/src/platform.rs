//! Platform selection: maps a build-target identifier to the
//! configuration that drives resolution and emission.
//!
//! The mapping is a fixed table over exact target identifiers, a pure
//! function of the string and the configured embedded tier. An
//! unrecognized target fails with `UnsupportedTarget` rather than
//! silently defaulting: a silent default to the wrong namespace causes
//! link-time or runtime symbol mismatches that are hard to diagnose.

use vstd::prelude::*;
use vstd::string::StringExecFns;
use crate::emit::Strategy;
use crate::error::Error;
use crate::order::str_eq;
use crate::registry::{Namespace, Profile, Version};

verus! {

/// Which embedded API generation a build is configured for; decides
/// the version selected for embedded targets.
#[derive(Debug, Clone, Copy, PartialEq, Eq, Structural)]
pub enum EmbeddedTier {
    Gles2,
    Gles3,
}

/// The configuration one build works against: created once from the
/// target, immutable, driving both resolution and emission.
#[derive(Debug, Clone, PartialEq, Eq)]
pub struct TargetConfiguration {
    pub namespace: Namespace,
    pub version: Version,
    pub profile: Profile,
    pub link_lib: String,
    pub strategy: Strategy,
}

/// Mathematical image of [`TargetConfiguration`].
pub struct SpecTargetConfiguration {
    pub namespace: Namespace,
    pub version: Version,
    pub profile: Profile,
    pub link_lib: Seq<char>,
    pub strategy: Strategy,
}

impl DeepView for TargetConfiguration {
    type V = SpecTargetConfiguration;

    open spec fn deep_view(&self) -> SpecTargetConfiguration {
        SpecTargetConfiguration {
            namespace: self.namespace,
            version: self.version,
            profile: self.profile,
            link_lib: self.link_lib@,
            strategy: self.strategy,
        }
    }
}

/// The version an embedded tier selects.
pub open spec fn tier_version(tier: EmbeddedTier) -> Version {
    match tier {
        EmbeddedTier::Gles2 => Version { major: 2, minor: 0 },
        EmbeddedTier::Gles3 => Version { major: 3, minor: 0 },
    }
}

/// Is the target one of the recognized embedded-OS identifiers?
pub open spec fn is_embedded_target(t: Seq<char>) -> bool {
    ||| t == "aarch64-linux-android"@
    ||| t == "armv7-linux-androideabi"@
    ||| t == "arm-linux-androideabi"@
    ||| t == "i686-linux-android"@
    ||| t == "x86_64-linux-android"@
}

/// Is the target one of the recognized POSIX desktop identifiers?
pub open spec fn is_posix_desktop_target(t: Seq<char>) -> bool {
    ||| t == "x86_64-unknown-linux-gnu"@
    ||| t == "i686-unknown-linux-gnu"@
    ||| t == "aarch64-unknown-linux-gnu"@
}

/// Is the target one of the recognized Apple desktop identifiers?
pub open spec fn is_apple_desktop_target(t: Seq<char>) -> bool {
    ||| t == "x86_64-apple-darwin"@
    ||| t == "aarch64-apple-darwin"@
}

/// Is the target one of the recognized Windows desktop identifiers?
pub open spec fn is_windows_desktop_target(t: Seq<char>) -> bool {
    ||| t == "x86_64-pc-windows-msvc"@
    ||| t == "i686-pc-windows-msvc"@
    ||| t == "x86_64-pc-windows-gnu"@
}

/// The selection table: embedded targets link the embedded library at
/// the tier's version; desktop targets get the desktop namespace at
/// version 3.3, linking the library their system names. Everything is
/// core profile and statically linked; anything else is unsupported.
pub open spec fn spec_select(t: Seq<char>, tier: EmbeddedTier) -> Option<
    SpecTargetConfiguration,
> {
    if is_embedded_target(t) {
        Some(
            SpecTargetConfiguration {
                namespace: Namespace::EmbeddedGles,
                version: tier_version(tier),
                profile: Profile::Core,
                link_lib: "GLESv2"@,
                strategy: Strategy::Static,
            },
        )
    } else if is_posix_desktop_target(t) {
        Some(
            SpecTargetConfiguration {
                namespace: Namespace::DesktopGl,
                version: Version { major: 3, minor: 3 },
                profile: Profile::Core,
                link_lib: "GL"@,
                strategy: Strategy::Static,
            },
        )
    } else if is_apple_desktop_target(t) {
        Some(
            SpecTargetConfiguration {
                namespace: Namespace::DesktopGl,
                version: Version { major: 3, minor: 3 },
                profile: Profile::Core,
                link_lib: "OpenGL"@,
                strategy: Strategy::Static,
            },
        )
    } else if is_windows_desktop_target(t) {
        Some(
            SpecTargetConfiguration {
                namespace: Namespace::DesktopGl,
                version: Version { major: 3, minor: 3 },
                profile: Profile::Core,
                link_lib: "opengl32"@,
                strategy: Strategy::Static,
            },
        )
    } else {
        Option::None
    }
}

/// Selects the configuration for a target identifier: exactly the
/// table [`spec_select`], failing with `UnsupportedTarget` on any
/// identifier outside it.
pub fn select(target: &str, tier: EmbeddedTier) -> (r: Result<TargetConfiguration, Error>)
    ensures
        match r {
            Ok(c) => spec_select(target@, tier) == Some(c.deep_view()),
            Err(e) => spec_select(target@, tier) is None && e == Error::UnsupportedTarget,
        },
{
    let embedded = str_eq(target, "aarch64-linux-android") || str_eq(
        target,
        "armv7-linux-androideabi",
    ) || str_eq(target, "arm-linux-androideabi") || str_eq(target, "i686-linux-android")
        || str_eq(target, "x86_64-linux-android");
    if embedded {
        let version = match tier {
            EmbeddedTier::Gles2 => Version { major: 2, minor: 0 },
            EmbeddedTier::Gles3 => Version { major: 3, minor: 0 },
        };
        return Ok(
            TargetConfiguration {
                namespace: Namespace::EmbeddedGles,
                version,
                profile: Profile::Core,
                link_lib: String::from_str("GLESv2"),
                strategy: Strategy::Static,
            },
        );
    }
    let posix = str_eq(target, "x86_64-unknown-linux-gnu") || str_eq(
        target,
        "i686-unknown-linux-gnu",
    ) || str_eq(target, "aarch64-unknown-linux-gnu");
    if posix {
        return Ok(
            TargetConfiguration {
                namespace: Namespace::DesktopGl,
                version: Version { major: 3, minor: 3 },
                profile: Profile::Core,
                link_lib: String::from_str("GL"),
                strategy: Strategy::Static,
            },
        );
    }
    let apple = str_eq(target, "x86_64-apple-darwin") || str_eq(target, "aarch64-apple-darwin");
    if apple {
        return Ok(
            TargetConfiguration {
                namespace: Namespace::DesktopGl,
                version: Version { major: 3, minor: 3 },
                profile: Profile::Core,
                link_lib: String::from_str("OpenGL"),
                strategy: Strategy::Static,
            },
        );
    }
    let windows = str_eq(target, "x86_64-pc-windows-msvc") || str_eq(
        target,
        "i686-pc-windows-msvc",
    ) || str_eq(target, "x86_64-pc-windows-gnu");
    if windows {
        return Ok(
            TargetConfiguration {
                namespace: Namespace::DesktopGl,
                version: Version { major: 3, minor: 3 },
                profile: Profile::Core,
                link_lib: String::from_str("opengl32"),
                strategy: Strategy::Static,
            },
        );
    }
    Err(Error::UnsupportedTarget)
}

} // verus!
