//! The host platform, and how the rules and classifiers of the upstream
//! metadata are held against it.

use vstd::prelude::*;
use vstd::string::*;
use crate::text::str_eq;

verus! {

/// The operating system of the host.
#[derive(Clone, Copy, Debug, PartialEq, Eq, Structural)]
pub enum HostOs {
    Windows,
    Macos,
    Linux,
    Other,
}

/// The processor architecture of the host.
#[derive(Clone, Copy, Debug, PartialEq, Eq, Structural)]
pub enum HostArch {
    X86,
    X86_64,
    Other,
}

/// The platform that libraries are selected for.
#[derive(Clone, Copy, Debug, PartialEq, Eq, Structural)]
pub struct Host {
    pub os: HostOs,
    pub arch: HostArch,
}

/// An operating system as a rule names it.
#[derive(Clone, Copy, Debug, PartialEq, Eq, Structural)]
pub enum OsName {
    Windows,
    Osx,
    Linux,
}

/// An architecture as a rule names it.
#[derive(Clone, Copy, Debug, PartialEq, Eq, Structural)]
pub enum OsArch {
    X86,
}

/// The platform qualifier of a rule.
#[derive(Clone, Debug)]
pub struct Os {
    pub name: Option<OsName>,
    pub version: Option<String>,
    pub arch: Option<OsArch>,
}

/// What the metadata asks for and this crate does not evaluate.
#[derive(Clone, Copy, Debug, PartialEq, Eq, Structural)]
pub enum Unsupported {
    /// A rule is qualified by features.
    Features,
    /// A rule is qualified by an operating system version.
    OsVersion,
    /// A native classifier is none of the known ones.
    Classifier,
}

/// The operating system that the host reports under `name`.
pub open spec fn os_named(name: Seq<char>) -> HostOs {
    if name == "windows"@ {
        HostOs::Windows
    } else if name == "macos"@ {
        HostOs::Macos
    } else if name == "linux"@ {
        HostOs::Linux
    } else {
        HostOs::Other
    }
}

/// The architecture that the host reports under `name`.
pub open spec fn arch_named(name: Seq<char>) -> HostArch {
    if name == "x86"@ {
        HostArch::X86
    } else if name == "x86_64"@ {
        HostArch::X86_64
    } else {
        HostArch::Other
    }
}

/// Whether a rule's operating system is that of the host.
pub open spec fn name_matches(name: OsName, os: HostOs) -> bool {
    match name {
        OsName::Windows => os == HostOs::Windows,
        OsName::Osx => os == HostOs::Macos,
        OsName::Linux => os == HostOs::Linux,
    }
}

/// Whether a rule's architecture is that of the host: `x86` stands for both
/// the 32-bit and the 64-bit kind.
pub open spec fn arch_matches(arch: OsArch, host: HostArch) -> bool {
    match arch {
        OsArch::X86 => host == HostArch::X86 || host == HostArch::X86_64,
    }
}

/// What a platform qualifier says of the host. A qualifier with a version
/// is not evaluated; an absent name or architecture matches.
pub open spec fn os_outcome(os: Os, host: Host) -> Result<bool, Unsupported> {
    if os.version is Some {
        Err(Unsupported::OsVersion)
    } else {
        Ok(
            (os.name matches Some(name) ==> name_matches(name, host.os)) && (
            os.arch matches Some(arch) ==> arch_matches(arch, host.arch)),
        )
    }
}

/// The operating system a native classifier is for.
pub open spec fn classifier_os(class: Seq<char>) -> Option<HostOs> {
    if class == "natives-linux"@ {
        Some(HostOs::Linux)
    } else if class == "natives-windows"@ {
        Some(HostOs::Windows)
    } else if class == "natives-macos"@ {
        Some(HostOs::Macos)
    } else {
        None
    }
}

/// What a native classifier says of the host.
pub open spec fn class_outcome(class: Seq<char>, host: Host) -> Result<bool, Unsupported> {
    match classifier_os(class) {
        Some(os) => Ok(host.os == os),
        None => Err(Unsupported::Classifier),
    }
}

impl Host {
    /// The host that reports the operating system `os` and the
    /// architecture `arch`.
    pub fn from_names(os: &str, arch: &str) -> (host: Host)
        ensures
            host == (Host { os: os_named(os@), arch: arch_named(arch@) }),
    {
        let os = if str_eq(os, "windows") {
            HostOs::Windows
        } else if str_eq(os, "macos") {
            HostOs::Macos
        } else if str_eq(os, "linux") {
            HostOs::Linux
        } else {
            HostOs::Other
        };
        let arch = if str_eq(arch, "x86") {
            HostArch::X86
        } else if str_eq(arch, "x86_64") {
            HostArch::X86_64
        } else {
            HostArch::Other
        };
        Host { os, arch }
    }
}

/// Whether a platform qualifier matches the host.
pub fn check_os(os: &Os, host: &Host) -> (out: Result<bool, Unsupported>)
    ensures
        out == os_outcome(*os, *host),
{
    if os.version.is_some() {
        return Err(Unsupported::OsVersion);
    }
    let name = match os.name {
        None => true,
        Some(OsName::Windows) => host.os == HostOs::Windows,
        Some(OsName::Osx) => host.os == HostOs::Macos,
        Some(OsName::Linux) => host.os == HostOs::Linux,
    };
    let arch = match os.arch {
        None => true,
        Some(OsArch::X86) => host.arch == HostArch::X86 || host.arch == HostArch::X86_64,
    };
    Ok(name && arch)
}

/// Whether a native classifier is the one of the host.
pub fn check_class(class: &str, host: &Host) -> (out: Result<bool, Unsupported>)
    ensures
        out == class_outcome(class@, *host),
{
    if str_eq(class, "natives-linux") {
        Ok(host.os == HostOs::Linux)
    } else if str_eq(class, "natives-windows") {
        Ok(host.os == HostOs::Windows)
    } else if str_eq(class, "natives-macos") {
        Ok(host.os == HostOs::Macos)
    } else {
        Err(Unsupported::Classifier)
    }
}

} // verus!
