//! Capability-based access control for browser processes.

use vstd::prelude::*;

verus! {

/// A capability represents a specific permission.
#[derive(Debug, Clone, Copy, PartialEq, Eq, Structural)]
pub enum Capability {
    /// Access to network (network process only)
    NetworkAccess,
    /// Read from clipboard (requires user gesture)
    ClipboardRead,
    /// Write to clipboard (requires user gesture)
    ClipboardWrite,
    /// Show file picker (returns capability handles only)
    FilePicker,
    /// Access to a specific file handle
    FileRead,
    FileWrite,
    /// Create child processes
    SpawnProcess,
    /// Access to raw devices (framebuffer, input)
    DeviceAccess,
}

/// A set of capabilities for a process.
#[derive(Debug, Clone)]
pub struct CapabilitySet {
    granted: Vec<Capability>,
}

impl CapabilitySet {
    /// The granted capabilities, in the order they were granted.
    pub closed spec fn granted(self) -> Seq<Capability> {
        self.granted@
    }

    /// The set of granted capabilities.
    pub open spec fn caps(self) -> Set<Capability> {
        self.granted().to_set()
    }

    /// No capability is listed twice.
    pub open spec fn wf(self) -> bool {
        self.granted().no_duplicates()
    }

    pub fn empty() -> (s: Self)
        ensures
            s.wf(),
            s.granted() == Seq::<Capability>::empty(),
    {
        Self { granted: Vec::new() }
    }

    fn contains_cap(v: &Vec<Capability>, cap: Capability) -> (b: bool)
        ensures
            b == v@.contains(cap),
    {
        let mut i: usize = 0;
        while i < v.len()
            invariant
                i <= v.len(),
                forall|j: int| 0 <= j < i ==> v@[j] != cap,
            decreases v.len() - i,
        {
            if v[i] == cap {
                return true;
            }
            i = i + 1;
        }
        false
    }

    pub fn has(&self, cap: Capability) -> (b: bool)
        ensures
            b == self.caps().contains(cap),
    {
        Self::contains_cap(&self.granted, cap)
    }

    pub fn add(&mut self, cap: Capability)
        requires
            old(self).wf(),
        ensures
            final(self).wf(),
            old(self).granted().contains(cap) ==> final(self).granted() == old(self).granted(),
            !old(self).granted().contains(cap) ==> final(self).granted() == old(self).granted().push(cap),
    {
        if !Self::contains_cap(&self.granted, cap) {
            self.granted.push(cap);
        }
    }

    /// What the UI process may do: devices, the clipboard both ways, the file
    /// picker and the network.
    pub fn ui_process() -> (s: Self)
        ensures
            s.wf(),
            s.granted() == seq![
                Capability::DeviceAccess,
                Capability::ClipboardRead,
                Capability::ClipboardWrite,
                Capability::FilePicker,
                Capability::NetworkAccess,
            ],
    {
        let mut granted = Vec::new();
        granted.push(Capability::DeviceAccess);
        granted.push(Capability::ClipboardRead);
        granted.push(Capability::ClipboardWrite);
        granted.push(Capability::FilePicker);
        granted.push(Capability::NetworkAccess);
        let s = Self { granted };
        assert(s.granted() =~= seq![
            Capability::DeviceAccess,
            Capability::ClipboardRead,
            Capability::ClipboardWrite,
            Capability::FilePicker,
            Capability::NetworkAccess,
        ]);
        s
    }

    /// The network process may only reach the network.
    pub fn network_process() -> (s: Self)
        ensures
            s.wf(),
            s.granted() == seq![Capability::NetworkAccess],
    {
        let mut granted = Vec::new();
        granted.push(Capability::NetworkAccess);
        let s = Self { granted };
        assert(s.granted() =~= seq![Capability::NetworkAccess]);
        s
    }

    /// The renderer has no direct capability: everything goes over IPC.
    pub fn renderer_process() -> (s: Self)
        ensures
            s.wf(),
            s.granted() == Seq::<Capability>::empty(),
    {
        Self { granted: Vec::new() }
    }

    /// Withdraws `cap`; the others stay in the order they were granted.
    pub fn revoke(&mut self, cap: Capability)
        requires
            old(self).wf(),
        ensures
            final(self).wf(),
            final(self).granted() == old(self).granted().filter(|c: Capability| c != cap),
    {
        let ghost orig = self.granted@;
        let ghost keep = |c: Capability| c != cap;
        let mut kept: Vec<Capability> = Vec::new();
        let mut i: usize = 0;
        assert(orig.take(0).filter(keep) =~= Seq::<Capability>::empty()) by {
            reveal(Seq::filter);
        }
        while i < self.granted.len()
            invariant
                self.granted@ == orig,
                orig.no_duplicates(),
                i <= orig.len(),
                keep == (|c: Capability| c != cap),
                kept@ == orig.take(i as int).filter(keep),
                kept@.no_duplicates(),
                forall|x: Capability| kept@.contains(x) ==> orig.take(i as int).contains(x),
            decreases orig.len() - i,
        {
            let c = self.granted[i];
            proof {
                assert(orig.take(i + 1) =~= orig.take(i as int).push(c));
                orig.take(i as int).lemma_filter_push(c, keep);
            }
            let ghost kept0 = kept@;
            if c != cap {
                proof {
                    if kept@.contains(c) {
                        let k = choose|k: int| 0 <= k < i && orig.take(i as int)[k] == c;
                        assert(orig[k] == orig[i as int]);
                    }
                }
                kept.push(c);
            }
            proof {
                assert forall|x: Capability| kept@.contains(x) implies orig.take(i + 1).contains(x) by {
                    if x == c {
                        assert(orig.take(i + 1)[i as int] == x);
                    } else {
                        let k = choose|k: int| 0 <= k < kept@.len() && kept@[k] == x;
                        assert(kept0[k] == x);
                        assert(kept0.contains(x));
                        assert(orig.take(i as int).contains(x));
                        let m = choose|m: int| 0 <= m < i && orig.take(i as int)[m] == x;
                        assert(orig.take(i + 1)[m] == x);
                    }
                }
            }
            i = i + 1;
        }
        assert(orig.take(orig.len() as int) =~= orig);
        self.granted = kept;
    }
}

/// A capability that was added is held.
pub proof fn law_add_then_has(s0: CapabilitySet, s1: CapabilitySet, cap: Capability)
    requires
        s0.wf(),
        s0.granted().contains(cap) ==> s1.granted() == s0.granted(),
        !s0.granted().contains(cap) ==> s1.granted() == s0.granted().push(cap),
    ensures
        s1.caps().contains(cap),
        forall|c: Capability| s0.caps().contains(c) ==> s1.caps().contains(c),
{
    if !s0.granted().contains(cap) {
        assert(s1.granted()[s0.granted().len() as int] == cap);
        assert forall|c: Capability| s0.caps().contains(c) implies s1.caps().contains(c) by {
            let k = choose|k: int| 0 <= k < s0.granted().len() && s0.granted()[k] == c;
            assert(s1.granted()[k] == c);
        }
    }
}

/// A revoked capability is no longer held, and every other one is kept.
pub proof fn law_revoke_then_lacks(s0: CapabilitySet, s1: CapabilitySet, cap: Capability)
    requires
        s1.granted() == s0.granted().filter(|c: Capability| c != cap),
    ensures
        !s1.caps().contains(cap),
        forall|c: Capability| c != cap ==> (s1.caps().contains(c) <==> s0.caps().contains(c)),
{
    broadcast use vstd::seq_lib::group_filter_ensures;

    let keep = |c: Capability| c != cap;
    assert(s1.granted() == s0.granted().filter(keep));
    if s1.caps().contains(cap) {
        let k = choose|k: int| 0 <= k < s1.granted().len() && s1.granted()[k] == cap;
        assert(keep(s1.granted()[k]));
    }
    assert forall|c: Capability| c != cap implies (s1.caps().contains(c) <==> s0.caps().contains(c)) by {
        if s0.caps().contains(c) {
            let k = choose|k: int| 0 <= k < s0.granted().len() && s0.granted()[k] == c;
            assert(keep(s0.granted()[k]));
            assert(s0.granted().filter(keep).contains(s0.granted()[k]));
        }
        if s1.caps().contains(c) {
            assert(s0.granted().filter(keep).contains(c));
            s0.granted().lemma_filter_contains_rev(keep, c);
        }
    }
}


/// Installs the renderer's restrictive syscall profile. On Linux the profile
/// is a stub that is not enforced yet, and installing it succeeds.
pub fn install_seccomp_profile() -> (r: Result<(), String>)
    ensures
        r is Ok,
{
    Ok(())
}

} // verus!
