//! Whether this process runs inside a WSL2 guest.

use crate::text;
use vstd::prelude::*;

verus! {

/// Either of two signals is enough: the kernel release string names Microsoft, or
/// the variable that WSL sets is not empty.
pub open spec fn looks_like_wsl2(
    proc_version: Option<Seq<char>>,
    wsl_distro_env: Option<Seq<char>>,
) -> bool {
    ||| proc_version matches Some(v) && text::occurs(text::lower(v), "microsoft"@)
    ||| wsl_distro_env matches Some(v) && v.len() > 0
}

/// Takes what `/proc/version` holds and what `WSL_DISTRO_NAME` is, where they can be
/// read.
pub fn detect(proc_version: Option<&str>, wsl_distro_env: Option<&str>) -> (r: bool)
    ensures
        r == looks_like_wsl2(text::opt_text(proc_version), text::opt_text(wsl_distro_env)),
{
    let kernel_says_so = match proc_version {
        Some(v) => text::contains(text::to_lower(v).as_str(), "microsoft"),
        None => false,
    };
    let env_says_so = match wsl_distro_env {
        Some(v) => text::to_chars(v).len() > 0,
        None => false,
    };
    kernel_says_so || env_says_so
}

/// A WSL2 guest is one whose kernel release names Microsoft anywhere, in whatever case, or
/// whose distribution variable is set to something; nothing else makes it one.
pub proof fn law_guest_is_told_by_kernel_or_variable(
    proc_version: Option<Seq<char>>,
    wsl_distro_env: Option<Seq<char>>,
)
    ensures
        ({
            let kernel = proc_version is Some && exists|i: int|
                0 <= i <= proc_version->0.len() - 9 && text::lower(
                    #[trigger] proc_version->0.subrange(i, i + 9),
                ) == "microsoft"@;
            let variable = wsl_distro_env is Some && wsl_distro_env->0.len() > 0;
            looks_like_wsl2(proc_version, wsl_distro_env) <==> kernel || variable
        }),
{
    reveal_strlit("microsoft");
    if let Some(v) = proc_version {
        let n = "microsoft"@;
        assert(n.len() == 9);
        assert forall|i: int| 0 <= i <= v.len() - 9 implies text::lower(
            #[trigger] v.subrange(i, i + 9),
        ) == text::lower(v).subrange(i, i + n.len()) by {
            assert(text::lower(v.subrange(i, i + 9)) =~= text::lower(v).subrange(i, i + 9));
        }
        if text::occurs(text::lower(v), n) {
            let i = choose|i: int|
                0 <= i <= text::lower(v).len() - n.len() && #[trigger] text::lower(v).subrange(
                    i,
                    i + n.len(),
                ) == n;
            assert(text::lower(v.subrange(i, i + 9)) == n);
        }
        if exists|i: int|
            0 <= i <= v.len() - 9 && text::lower(#[trigger] v.subrange(i, i + 9)) == n {
            let i = choose|i: int|
                0 <= i <= v.len() - 9 && text::lower(#[trigger] v.subrange(i, i + 9)) == n;
            assert(text::lower(v).subrange(i, i + n.len()) == n);
        }
    }
}

} // verus!
