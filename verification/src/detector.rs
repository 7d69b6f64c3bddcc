use vstd::prelude::*;
use vstd::string::*;
use crate::errors::ConfigError;

verus! {

/// The platform name of an executable: on Windows the bare name with an
/// `.exe` suffix, elsewhere the bare name itself.
pub fn exe_name(name: &str, windows: bool) -> (r: String)
    ensures
        windows ==> r@ == name@ + ".exe"@,
        !windows ==> r@ == name@,
{
    let mut s = name.to_owned();
    if windows {
        s.append(".exe");
    }
    s
}

/// The capability tags a directory provides, given which of the known
/// executables were found under its `bin` subdirectory: `node` first, then
/// `java`, each present exactly when its probe succeeded.
pub fn detect(has_node: bool, has_java: bool) -> (r: Vec<String>)
    ensures
        r.deep_view() == detected_caps(has_node, has_java),
{
    let mut caps: Vec<String> = Vec::new();
    if has_node {
        caps.push("node".to_owned());
    }
    if has_java {
        caps.push("java".to_owned());
    }
    proof {
        assert(caps.deep_view() =~= detected_caps(has_node, has_java));
    }
    caps
}

/// The capability tags that follow from the two probe results.
pub open spec fn detected_caps(has_node: bool, has_java: bool) -> Seq<Seq<char>> {
    (if has_node {
        seq!["node"@]
    } else {
        Seq::<Seq<char>>::empty()
    }) + (if has_java {
        seq!["java"@]
    } else {
        Seq::<Seq<char>>::empty()
    })
}

/// The capability set a new registration gets: the explicit flags when at
/// least one was given, otherwise whatever detection found; when neither a
/// flag was given nor anything was detected, the addition is refused with
/// `NoMatch` (no known runtime kind matches the directory).
pub fn capabilities_for_add(node: bool, java: bool, detected: Vec<String>) -> (r: Result<
    Vec<String>,
    ConfigError,
>)
    ensures
        (node || java) ==> (r matches Ok(v) && v.deep_view() == detected_caps(node, java)),
        (!node && !java && detected.deep_view().len() > 0) ==> (r matches Ok(v) && v.deep_view()
            == detected.deep_view()),
        (!node && !java && detected.deep_view().len() == 0) ==> r == Err::<
            Vec<String>,
            ConfigError,
        >(ConfigError::NoMatch),
{
    if node || java {
        Ok(detect(node, java))
    } else if detected.len() == 0 {
        Err(ConfigError::NoMatch)
    } else {
        Ok(detected)
    }
}

/// The entry name derived from an installation path: the part after the
/// last slash, or the whole path when it has no slash; an empty derivation
/// falls back to `unknown`.
pub fn name_from_path(path: &str) -> (r: String)
    ensures
        r@ == spec_name_from_path(path@),
{
    let n = path.unicode_len();
    let mut cut: usize = 0;
    let mut i: usize = 0;
    while i < n
        invariant
            0 <= cut <= i <= n,
            n == path@.len(),
            cut == last_slash_end(path@.take(i as int)),
        decreases n - i,
    {
        proof {
            assert(path@.take(i + 1).drop_last() =~= path@.take(i as int));
            assert(path@.take(i + 1).last() == path@[i as int]);
        }
        if path.get_char(i) == '/' {
            cut = i + 1;
        }
        i += 1;
    }
    proof {
        assert(path@.take(n as int) =~= path@);
    }
    if cut == n {
        "unknown".to_owned()
    } else {
        let mut s = String::new();
        let mut j: usize = cut;
        while j < n
            invariant
                cut <= j <= n,
                n == path@.len(),
                s@ == path@.subrange(cut as int, j as int),
            decreases n - j,
        {
            crate::str_util::push_char(&mut s, path.get_char(j));
            proof {
                assert(path@.subrange(cut as int, j + 1) =~= path@.subrange(
                    cut as int,
                    j as int,
                ).push(path@[j as int]));
            }
            j += 1;
        }
        proof {
            assert(s@ =~= path@.skip(last_slash_end(path@) as int));
        }
        s
    }
}

/// One past the position of the last slash of `s`, or zero when `s` has
/// no slash.
pub open spec fn last_slash_end(s: Seq<char>) -> int
    decreases s.len(),
{
    if s.len() == 0 {
        0
    } else if s.last() == '/' {
        s.len() as int
    } else {
        last_slash_end(s.drop_last())
    }
}

/// The name a path yields: its final segment, or `unknown` when that
/// segment is empty.
pub open spec fn spec_name_from_path(p: Seq<char>) -> Seq<char> {
    if last_slash_end(p) == p.len() {
        "unknown"@
    } else {
        p.skip(last_slash_end(p))
    }
}

} // verus!
