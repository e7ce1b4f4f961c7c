//! The capture-environment provenance recorded beside every golden, and the
//! drift between it and the running environment that is worth a warning.

use vstd::prelude::*;
use crate::text::{chars_of, range_eq, str_eq};

verus! {

/// `serde_json::Value`, carried through unread.
#[verifier::external_type_specification]
#[verifier::external_body]
pub struct ExJsonValue(serde_json::Value);

/// Capture-environment provenance of a golden.
#[derive(Debug)]
pub struct Manifest {
    pub treelite: String,
    pub xgboost: Option<String>,
    pub os: String,
    pub arch: String,
    pub libc: serde_json::Value,
    pub python: Option<String>,
    pub backend: String,
    pub rustc: Option<String>,
    pub cubecl: Option<String>,
    pub seed: Option<u64>,
    pub sha256: Option<String>,
    pub numpy: Option<String>,
    pub scipy: Option<String>,
    pub lightgbm: Option<String>,
    pub scikit_learn: Option<String>,
    pub model: Option<String>,
    pub preset: Option<String>,
    pub input_dtype: Option<String>,
    pub kind: Option<String>,
    pub layout: Option<String>,
}

/// The backend a manifest names when it names none: the scalar reference.
pub fn default_backend() -> (s: String)
    ensures
        s@ == "scalar-cpu"@,
{
    String::from_str("scalar-cpu")
}

/// The full Unicode lowercase mapping of a string, as `str::to_lowercase`
/// computes it.
pub uninterp spec fn lowercase(s: Seq<char>) -> Seq<char>;

/// `str::to_lowercase` (std): its result is the lowercase mapping
/// [`lowercase`] of the argument, which depends on nothing else (no locale).
#[verifier::external_body]
fn to_lowercase(s: &str) -> (r: String)
    ensures
        r@ == lowercase(s@),
{
    s.to_lowercase()
}

/// `t` occurs in `s` as a contiguous run.
pub open spec fn contains_seq(s: Seq<char>, t: Seq<char>) -> bool {
    exists|i: int| 0 <= i && i + t.len() <= s.len() && #[trigger] s.subrange(i, i + t.len()) == t
}

/// Whether `t` occurs in `s` (see [`contains_seq`]).
pub fn str_contains(s: &str, t: &str) -> (b: bool)
    ensures
        b == contains_seq(s@, t@),
{
    let cs = chars_of(s);
    let ct = chars_of(t);
    if ct.len() > cs.len() {
        return false;
    }
    let n = cs.len();
    let last = n - ct.len();
    let mut i: usize = 0;
    loop
        invariant
            n == cs@.len(),
            last == n - ct@.len(),
            cs@ == s@,
            ct@ == t@,
            i <= last,
            forall|j: int| 0 <= j < i ==> #[trigger] cs@.subrange(j, j + ct@.len()) != ct@,
        decreases last - i,
    {
        if range_eq(cs.as_slice(), i, i + ct.len(), ct.as_slice()) {
            return true;
        }
        if i == last {
            return false;
        }
        i = i + 1;
    }
}

/// Which parts of the capture environment differ from the running one.
#[derive(Debug, Clone, Copy, PartialEq, Eq, Structural)]
pub struct ManifestDrift {
    /// The running OS name does not occur in the lowercased captured OS.
    pub os: bool,
    /// The captured and running architectures differ, ignoring case.
    pub arch: bool,
    /// The golden was not captured with the scalar reference backend.
    pub backend: bool,
    /// Both compilers are known and they differ.
    pub rustc: bool,
}

/// The drift between `manifest` and the running environment (its OS and
/// architecture names, and its compiler version when known). Each part is
/// worth a warning and never a failure.
pub fn manifest_drift(
    manifest: &Manifest,
    running_os: &str,
    running_arch: &str,
    running_rustc: Option<&str>,
) -> (d: ManifestDrift)
    ensures
        d.os == !contains_seq(lowercase(manifest.os@), running_os@),
        d.arch == (lowercase(manifest.arch@) != lowercase(running_arch@)),
        d.backend == (manifest.backend@ != "scalar-cpu"@),
        d.rustc == match (manifest.rustc, running_rustc) {
            (Some(captured), Some(running)) => captured@ != running@,
            _ => false,
        },
{
    let os_lower = to_lowercase(manifest.os.as_str());
    let os = !str_contains(os_lower.as_str(), running_os);
    let captured_arch = to_lowercase(manifest.arch.as_str());
    let running_arch_lower = to_lowercase(running_arch);
    let arch = !str_eq(captured_arch.as_str(), running_arch_lower.as_str());
    let backend = !str_eq(manifest.backend.as_str(), "scalar-cpu");
    let rustc = match (&manifest.rustc, running_rustc) {
        (Some(captured), Some(running)) => !str_eq(captured.as_str(), running),
        _ => false,
    };
    ManifestDrift { os, arch, backend, rustc }
}

} // verus!
