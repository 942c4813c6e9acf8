//! The platform selector: platform-keyed tables of values and the exact
//! lookup for the host platform. The host platform is detected once at the
//! command entry point and threaded explicitly through the engine.

use vstd::prelude::*;
use crate::error::Error;

verus! {

/// The operating systems the manager supports.
#[allow(non_camel_case_types)]
#[derive(Debug, Clone, Copy, PartialEq, Eq, Structural)]
pub enum System {
    linux,
    windows,
}

/// The CPU architectures the manager supports.
#[allow(non_camel_case_types)]
#[derive(Debug, Clone, Copy, PartialEq, Eq, Structural)]
pub enum CpuArch {
    x86_64,
    aarch64,
}

/// A host platform: the pair of operating system and CPU architecture.
#[derive(Debug, Clone, Copy, PartialEq, Eq, Structural)]
pub struct Platform {
    pub system: System,
    pub cpu_arch: CpuArch,
}

/// One platform-keyed table entry.
#[derive(Debug)]
pub struct PlatformDependentEntry<T> {
    pub system: System,
    pub cpu_arch: CpuArch,
    pub value: T,
}

impl<T> PlatformDependentEntry<T> {
    pub fn new(system: System, cpu_arch: CpuArch, value: T) -> (r: Self)
        ensures
            r.system == system,
            r.cpu_arch == cpu_arch,
            r.value == value,
    {
        Self { system, cpu_arch, value }
    }
}

/// A platform-dependent value: a table mapping (system, cpu arch) pairs to
/// values. Lookup returns the first entry for a platform.
#[derive(Debug)]
pub struct PlatformDependent<T> {
    pub entries: Vec<PlatformDependentEntry<T>>,
}

/// The value of the first entry of `s` keyed by `p`, if any.
pub open spec fn find_platform_value<T>(s: Seq<PlatformDependentEntry<T>>, p: Platform) -> Option<
    T,
>
    decreases s.len(),
{
    if s.len() == 0 {
        None
    } else if s[0].system == p.system && s[0].cpu_arch == p.cpu_arch {
        Some(s[0].value)
    } else {
        find_platform_value(s.drop_first(), p)
    }
}

/// Searching a table whose first `i` entries are not keyed by `p` is the
/// same as searching the remainder.
proof fn lemma_find_platform_value_step<T>(s: Seq<PlatformDependentEntry<T>>, p: Platform, i: int)
    requires
        0 <= i <= s.len(),
        forall|j: int|
            0 <= j < i ==> !(s[j].system == p.system && s[j].cpu_arch == p.cpu_arch),
    ensures
        find_platform_value(s, p) == find_platform_value(s.subrange(i, s.len() as int), p),
    decreases i,
{
    if i > 0 {
        lemma_find_platform_value_step(s, p, i - 1);
        assert(s.subrange(i - 1, s.len() as int).drop_first() =~= s.subrange(i, s.len() as int));
    } else {
        assert(s.subrange(0, s.len() as int) =~= s);
    }
}

impl<T> PlatformDependent<T> {
    pub fn new(entries: Vec<PlatformDependentEntry<T>>) -> (r: Self)
        ensures
            r.entries == entries,
    {
        Self { entries }
    }

    /// Returns the value registered for the host platform, or
    /// `UnsupportedPlatform` when the table has no entry for it.
    pub fn get_for_current_platform(&self, current: Platform) -> (r: Result<&T, Error>)
        ensures
            match r {
                Ok(v) => find_platform_value(self.entries@, current) == Some(*v),
                Err(e) => find_platform_value(self.entries@, current) is None && (e matches
                    Error::UnsupportedPlatform { system, cpu_arch }
                    && system == current.system && cpu_arch == current.cpu_arch),
            },
    {
        let n = self.entries.len();
        let mut i: usize = 0;
        while i < n
            invariant
                0 <= i <= n,
                n == self.entries@.len(),
                forall|j: int|
                    0 <= j < i ==> !(self.entries@[j].system == current.system
                        && self.entries@[j].cpu_arch == current.cpu_arch),
            decreases n - i,
        {
            let e = &self.entries[i];
            if e.system == current.system && e.cpu_arch == current.cpu_arch {
                proof {
                    lemma_find_platform_value_step(self.entries@, current, i as int);
                }
                return Ok(&self.entries[i].value);
            }
            i += 1;
        }
        proof {
            lemma_find_platform_value_step(self.entries@, current, n as int);
            assert(self.entries@.subrange(n as int, n as int) =~= Seq::<
                PlatformDependentEntry<T>,
            >::empty());
        }
        Err(Error::UnsupportedPlatform { system: current.system, cpu_arch: current.cpu_arch })
    }
}

} // verus!
