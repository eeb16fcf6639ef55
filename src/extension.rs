//! The editor extension's choice of the server binary to launch, and where a
//! downloaded release of it goes.
use vstd::prelude::*;
use vstd::string::*;

verus! {

/// The host's operating system.
#[derive(Clone, Copy, Debug, PartialEq, Eq, Structural)]
pub enum Os {
    Mac,
    Linux,
    Windows,
}

/// The host's processor architecture.
#[derive(Clone, Copy, Debug, PartialEq, Eq, Structural)]
pub enum Architecture {
    Aarch64,
    X86,
    X8664,
}

pub open spec fn arch_name_of(a: Architecture) -> Seq<char> {
    match a {
        Architecture::Aarch64 => "aarch64"@,
        Architecture::X86 => "x86"@,
        Architecture::X8664 => "x86_64"@,
    }
}

pub open spec fn target_of(os: Os) -> Seq<char> {
    match os {
        Os::Mac => "apple-darwin"@,
        Os::Linux => "unknown-linux-gnu"@,
        Os::Windows => "pc-windows-msvc"@,
    }
}

/// The name of the release asset built for `os` on `arch`.
pub open spec fn asset_name_of(os: Os, arch: Architecture) -> Seq<char> {
    "crates-io-lsp-"@ + arch_name_of(arch) + "-"@ + target_of(os) + ".zip"@
}

/// The directory that holds the release `version`.
pub open spec fn version_dir_of(version: Seq<char>) -> Seq<char> {
    "crates-io-"@ + version
}

/// The path of the server binary of release `version` on `os`.
pub open spec fn binary_path_of(version: Seq<char>, os: Os) -> Seq<char> {
    version_dir_of(version) + if os == Os::Windows {
        "/crates-io-lsp.exe"@
    } else {
        "/crates-io-lsp"@
    }
}

fn arch_name(a: Architecture) -> (r: &'static str)
    ensures
        r@ == arch_name_of(a),
{
    match a {
        Architecture::Aarch64 => "aarch64",
        Architecture::X86 => "x86",
        Architecture::X8664 => "x86_64",
    }
}

fn target(os: Os) -> (r: &'static str)
    ensures
        r@ == target_of(os),
{
    match os {
        Os::Mac => "apple-darwin",
        Os::Linux => "unknown-linux-gnu",
        Os::Windows => "pc-windows-msvc",
    }
}

/// The name of the release asset built for `os` on `arch`.
pub fn asset_name(os: Os, arch: Architecture) -> (r: String)
    ensures
        r@ == asset_name_of(os, arch),
{
    let mut r = "crates-io-lsp-".to_owned();
    r.append(arch_name(arch));
    r.append("-");
    r.append(target(os));
    r.append(".zip");
    r
}

/// The directory that holds the release `version`.
pub fn version_dir(version: &str) -> (r: String)
    ensures
        r@ == version_dir_of(version@),
{
    let mut r = "crates-io-".to_owned();
    r.append(version);
    r
}

/// The path of the server binary of release `version` on `os`.
pub fn binary_path(version: &str, os: Os) -> (r: String)
    ensures
        r@ == binary_path_of(version@, os),
{
    let mut r = version_dir(version);
    if os == Os::Windows {
        r.append("/crates-io-lsp.exe");
    } else {
        r.append("/crates-io-lsp");
    }
    r
}

/// The binary to launch without a download: the one the settings name, else one found
/// on the search path, else the one installed earlier in this session.
pub fn installed_binary(configured: Option<String>, on_path: Option<String>, cached: Option<String>) -> (r:
    Option<String>)
    ensures
        r == (if configured is Some {
            configured
        } else if on_path is Some {
            on_path
        } else {
            cached
        }),
{
    if configured.is_some() {
        configured
    } else if on_path.is_some() {
        on_path
    } else {
        cached
    }
}

} // verus!
