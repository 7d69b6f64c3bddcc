use vstd::prelude::*;
use vstd::string::*;
use crate::errors::ConfigError;
use crate::str_util::str_eq;

verus! {

/// Mathematical model of a registered runtime installation.
pub struct RuntimeView {
    pub name: Seq<char>,
    pub path: Seq<char>,
    pub capabilities: Seq<Seq<char>>,
}

/// A registered runtime installation: a directory on disk together with the
/// capability tags it provides.
#[derive(Clone, Debug, PartialEq, Eq)]
pub struct Runtime {
    pub name: String,
    pub path: String,
    pub capabilities: Vec<String>,
}

impl View for Runtime {
    type V = RuntimeView;

    open spec fn view(&self) -> RuntimeView {
        RuntimeView {
            name: self.name@,
            path: self.path@,
            capabilities: self.capabilities.deep_view(),
        }
    }
}

impl DeepView for Runtime {
    type V = RuntimeView;

    open spec fn deep_view(&self) -> RuntimeView {
        self.view()
    }
}

/// Mathematical model of the registry.
pub struct ConfigView {
    pub current: Option<Seq<char>>,
    pub runtimes: Seq<RuntimeView>,
}

/// The registry: the ordered list of known runtimes and the name of the one
/// currently selected, if any.
#[derive(Clone, Debug, PartialEq, Eq)]
pub struct Config {
    pub current: Option<String>,
    pub runtimes: Vec<Runtime>,
}

impl View for Config {
    type V = ConfigView;

    open spec fn view(&self) -> ConfigView {
        ConfigView { current: self.current.deep_view(), runtimes: self.runtimes.deep_view() }
    }
}

/// Whether some entry of the registry carries the given name.
pub open spec fn spec_has_name(c: ConfigView, name: Seq<char>) -> bool {
    exists|i: int| 0 <= i < c.runtimes.len() && c.runtimes[i].name == name
}

/// The entries of `s` whose capability set contains `cap`, in order.
pub open spec fn cap_filter(s: Seq<RuntimeView>, cap: Seq<char>) -> Seq<RuntimeView> {
    s.filter(|rt: RuntimeView| rt.capabilities.contains(cap))
}

/// The registry after an attempted addition: unchanged when the name is
/// taken, extended at the end otherwise.
pub open spec fn spec_add(c: ConfigView, rt: RuntimeView) -> ConfigView {
    if spec_has_name(c, rt.name) {
        c
    } else {
        ConfigView { current: c.current, runtimes: c.runtimes.push(rt) }
    }
}

/// The error an attempted addition reports, if any.
pub open spec fn spec_add_err(c: ConfigView, rt: RuntimeView) -> Option<ConfigError> {
    if spec_has_name(c, rt.name) {
        Some(ConfigError::DuplicateName)
    } else {
        None
    }
}

impl ConfigView {
    /// The registry invariant: no two entries share a name.
    pub open spec fn wf(self) -> bool {
        forall|i: int, j: int|
            0 <= i < j < self.runtimes.len() ==> self.runtimes[i].name != self.runtimes[j].name
    }
}

impl Config {
    /// The location of the persisted registry below the given state directory.
    pub fn get_config_path(root: &str) -> (r: String)
        ensures
            r@ == root@ + "/config.json"@,
    {
        let mut s = root.to_owned();
        s.append("/config.json");
        s
    }

    /// Whether an entry with this name is already registered.
    pub fn has_name(&self, name: &str) -> (r: bool)
        ensures
            r == spec_has_name(self@, name@),
    {
        let n = self.runtimes.len();
        let mut i: usize = 0;
        while i < n
            invariant
                0 <= i <= n,
                n == self.runtimes.len(),
                forall|k: int| 0 <= k < i ==> self@.runtimes[k].name != name@,
            decreases n - i,
        {
            if str_eq(self.runtimes[i].name.as_str(), name) {
                assert(self@.runtimes[i as int].name == name@);
                return true;
            }
            i += 1;
        }
        false
    }

    /// Appends the runtime, unless its name is already taken, in which case
    /// the registry is left untouched and the duplicate is reported.
    pub fn add_runtime(&mut self, rt: Runtime) -> (r: Result<(), ConfigError>)
        ensures
            final(self)@ == spec_add(old(self)@, rt@),
            match r {
                Ok(()) => spec_add_err(old(self)@, rt@) is None,
                Err(e) => spec_add_err(old(self)@, rt@) == Some(e),
            },
            old(self)@.wf() ==> final(self)@.wf(),
    {
        if self.has_name(rt.name.as_str()) {
            return Err(ConfigError::DuplicateName);
        }
        proof {
            let c = self@;
            let pushed = ConfigView { current: c.current, runtimes: c.runtimes.push(rt@) };
            if c.wf() {
                assert forall|i: int, j: int|
                    0 <= i < j < pushed.runtimes.len() implies pushed.runtimes[i].name
                    != pushed.runtimes[j].name by {
                    if j == c.runtimes.len() {
                        assert(pushed.runtimes[j].name == rt@.name);
                        assert(!spec_has_name(c, rt@.name));
                    }
                }
            }
        }
        self.runtimes.push(rt);
        assert(self@.runtimes =~= old(self)@.runtimes.push(rt@));
        Ok(())
    }

    /// All registered runtimes, in registration order.
    pub fn get_runtimes(&self) -> (r: &Vec<Runtime>)
        ensures
            r.deep_view() == self@.runtimes,
    {
        &self.runtimes
    }

    /// The registered runtimes whose capability set contains the tag, in
    /// registration order.
    pub fn get_runtimes_by_capability(&self, cap: &str) -> (r: Vec<&Runtime>)
        ensures
            r.deep_view() == cap_filter(self@.runtimes, cap@),
    {
        let pred = Ghost(|rt: RuntimeView| rt.capabilities.contains(cap@));
        let n = self.runtimes.len();
        let mut out: Vec<&Runtime> = Vec::new();
        let mut i: usize = 0;
        proof {
            assert(self@.runtimes.take(0).filter(pred@) =~= Seq::<RuntimeView>::empty()) by {
                reveal(Seq::filter);
            }
            assert(out.deep_view() =~= Seq::<RuntimeView>::empty());
        }
        while i < n
            invariant
                0 <= i <= n,
                n == self.runtimes.len(),
                pred@ == (|rt: RuntimeView| rt.capabilities.contains(cap@)),
                out.deep_view() == self@.runtimes.take(i as int).filter(pred@),
            decreases n - i,
        {
            let ghost prefix = self@.runtimes.take(i as int);
            let ghost one = seq![self@.runtimes[i as int]];
            proof {
                assert(self@.runtimes.take(i + 1) =~= prefix + one);
                Seq::filter_distributes_over_add(prefix, one, pred@);
                assert(one.filter(pred@) =~= (if pred@(self@.runtimes[i as int]) {
                    one
                } else {
                    Seq::<RuntimeView>::empty()
                })) by {
                    reveal(Seq::filter);
                    assert(one.drop_last() =~= Seq::<RuntimeView>::empty());
                    assert(Seq::<RuntimeView>::empty().filter(pred@) =~= Seq::<
                        RuntimeView,
                    >::empty());
                }
            }
            if runtime_has_capability(&self.runtimes[i], cap) {
                out.push(&self.runtimes[i]);
                assert(out.deep_view() =~= self@.runtimes.take(i + 1).filter(pred@));
            } else {
                assert(out.deep_view() =~= self@.runtimes.take(i + 1).filter(pred@));
            }
            i += 1;
        }
        proof {
            assert(self@.runtimes.take(n as int) =~= self@.runtimes);
        }
        out
    }

    /// Overwrites the currently selected name.
    pub fn set_current(&mut self, name: Option<String>)
        ensures
            final(self)@.current == name.deep_view(),
            final(self)@.runtimes == old(self)@.runtimes,
            old(self)@.wf() ==> final(self)@.wf(),
    {
        self.current = name;
    }
}

impl Default for Config {
    /// The empty registry: no entries, nothing selected.
    fn default() -> (c: Config)
        ensures
            c@.current is None,
            c@.runtimes == Seq::<RuntimeView>::empty(),
            c@.wf(),
    {
        let c = Config { current: None, runtimes: Vec::new() };
        proof {
            assert(c@.runtimes =~= Seq::<RuntimeView>::empty());
        }
        c
    }
}

/// Whether the runtime's capability set contains the tag.
pub fn runtime_has_capability(rt: &Runtime, cap: &str) -> (r: bool)
    ensures
        r == rt@.capabilities.contains(cap@),
{
    let n = rt.capabilities.len();
    let mut j: usize = 0;
    while j < n
        invariant
            0 <= j <= n,
            n == rt.capabilities.len(),
            forall|l: int| 0 <= l < j ==> rt@.capabilities[l] != cap@,
        decreases n - j,
    {
        if str_eq(rt.capabilities[j].as_str(), cap) {
            assert(rt@.capabilities[j as int] == cap@);
            return true;
        }
        j += 1;
    }
    false
}

/// Whether the tag is one of the known capability kinds.
pub open spec fn spec_known_capability(cap: Seq<char>) -> bool {
    cap == "node"@ || cap == "java"@
}

/// Accepts exactly the known capability tags; anything else is refused as
/// an unknown capability.
pub fn validate_capability(cap: &str) -> (r: Result<(), ConfigError>)
    ensures
        r is Ok <==> spec_known_capability(cap@),
        r is Err ==> r == Err::<(), ConfigError>(ConfigError::UnknownCapability),
{
    if str_eq(cap, "node") || str_eq(cap, "java") {
        Ok(())
    } else {
        Err(ConfigError::UnknownCapability)
    }
}

/// The candidates a listing or an interactive switch offers: all entries,
/// or, under a capability filter, the entries carrying that tag, in
/// registration order either way; a filter outside the known set is
/// refused.
pub fn select_candidates<'a>(cfg: &'a Config, cap: Option<&str>) -> (r: Result<
    Vec<&'a Runtime>,
    ConfigError,
>)
    ensures
        match cap {
            Some(c) => {
                &&& spec_known_capability(c@) ==> (r matches Ok(v) && v.deep_view() == cap_filter(
                    cfg@.runtimes,
                    c@,
                ))
                &&& !spec_known_capability(c@) ==> r == Err::<Vec<&'a Runtime>, ConfigError>(
                    ConfigError::UnknownCapability,
                )
            },
            None => r matches Ok(v) && v.deep_view() == cfg@.runtimes,
        },
{
    match cap {
        Some(c) => {
            let checked = validate_capability(c);
            match checked {
                Ok(()) => Ok(cfg.get_runtimes_by_capability(c)),
                Err(e) => Err(e),
            }
        },
        None => {
            let n = cfg.runtimes.len();
            let mut out: Vec<&'a Runtime> = Vec::new();
            let mut i: usize = 0;
            while i < n
                invariant
                    0 <= i <= n,
                    n == cfg.runtimes.len(),
                    out.deep_view() =~= cfg@.runtimes.take(i as int),
                decreases n - i,
            {
                out.push(&cfg.runtimes[i]);
                proof {
                    assert(cfg@.runtimes.take(i + 1) =~= cfg@.runtimes.take(i as int).push(
                        cfg@.runtimes[i as int],
                    ));
                }
                i += 1;
            }
            proof {
                assert(cfg@.runtimes.take(n as int) =~= cfg@.runtimes);
            }
            Ok(out)
        },
    }
}

/// Adding a runtime under a fresh name succeeds; a second addition under the
/// same name is rejected and leaves the registry exactly as the first
/// addition left it, with the first entry as the only one of that name.
pub proof fn lemma_add_duplicate_rejected(c: ConfigView, rt1: RuntimeView, rt2: RuntimeView)
    requires
        !spec_has_name(c, rt1.name),
        rt2.name == rt1.name,
    ensures
        spec_add_err(c, rt1) is None,
        spec_add_err(spec_add(c, rt1), rt2) == Some(ConfigError::DuplicateName),
        spec_add(spec_add(c, rt1), rt2) == spec_add(c, rt1),
        spec_add(c, rt1).runtimes == c.runtimes.push(rt1),
{
    let c1 = spec_add(c, rt1);
    assert(c1.runtimes[c.runtimes.len() as int] == rt1);
    assert(spec_has_name(c1, rt2.name));
}

/// Every entry that the capability filter keeps carries the tag, and the
/// filtered sequence grows prefix by prefix in registration order: extending
/// the scanned prefix by one entry appends that entry exactly when it
/// carries the tag.
pub proof fn lemma_capability_filter_order(s: Seq<RuntimeView>, cap: Seq<char>, i: int)
    requires
        0 <= i < s.len(),
    ensures
        forall|k: int|
            0 <= k < cap_filter(s, cap).len() ==> (#[trigger] cap_filter(s, cap)[
            k]).capabilities.contains(cap),
        cap_filter(s.take(i + 1), cap) == cap_filter(s.take(i), cap) + (if s[
            i].capabilities.contains(cap) {
            seq![s[i]]
        } else {
            Seq::<RuntimeView>::empty()
        }),
{
    let pred = |rt: RuntimeView| rt.capabilities.contains(cap);
    assert forall|k: int| 0 <= k < s.filter(pred).len() implies (#[trigger] s.filter(pred)[
        k]).capabilities.contains(cap) by {
        Seq::lemma_filter_pred(s, pred, k);
    }
    let one = seq![s[i]];
    assert(s.take(i + 1) =~= s.take(i) + one);
    Seq::filter_distributes_over_add(s.take(i), one, pred);
    assert(one.filter(pred) =~= (if pred(s[i]) {
        one
    } else {
        Seq::<RuntimeView>::empty()
    })) by {
        reveal(Seq::filter);
        assert(one.drop_last() =~= Seq::<RuntimeView>::empty());
        assert(Seq::<RuntimeView>::empty().filter(pred) =~= Seq::<RuntimeView>::empty());
    }
}

} // verus!
