//! The table of running server instances, keyed by port.
use vstd::prelude::*;

verus! {

/// The mapping described by a list of (port, handle) entries.
pub open spec fn map_of<H>(s: Seq<(u16, H)>) -> Map<u16, H>
    decreases s.len(),
{
    if s.len() == 0 {
        Map::empty()
    } else {
        map_of(s.subrange(0, s.len() - 1)).insert(s[s.len() - 1].0, s[s.len() - 1].1)
    }
}

pub open spec fn ports_distinct<H>(s: Seq<(u16, H)>) -> bool {
    forall|i: int, j: int| 0 <= i < j < s.len() ==> s[i].0 != s[j].0
}

proof fn lemma_map_of<H>(s: Seq<(u16, H)>)
    requires
        ports_distinct(s),
    ensures
        forall|p: u16| #[trigger]
            map_of(s).contains_key(p) <==> exists|i: int| 0 <= i < s.len() && s[i].0 == p,
        forall|i: int| 0 <= i < s.len() ==> map_of(s)[#[trigger] s[i].0] == s[i].1,
    decreases s.len(),
{
    if s.len() > 0 {
        let t = s.subrange(0, s.len() - 1);
        assert(map_of(s) == map_of(t).insert(s[s.len() - 1].0, s[s.len() - 1].1));
        assert forall|a: int, b: int| 0 <= a < b < t.len() implies t[a].0 != t[b].0 by {
            assert(t[a] == s[a] && t[b] == s[b]);
        }
        lemma_map_of(t);
        assert forall|p: u16| #[trigger]
            map_of(s).contains_key(p) <==> exists|i: int| 0 <= i < s.len() && s[i].0 == p by {
            if map_of(s).contains_key(p) && p != s[s.len() - 1].0 {
                let i = choose|i: int| 0 <= i < t.len() && t[i].0 == p;
                assert(s[i].0 == p);
            }
            if exists|i: int| 0 <= i < s.len() && s[i].0 == p {
                let i = choose|i: int| 0 <= i < s.len() && s[i].0 == p;
                if i < s.len() - 1 {
                    assert(t[i].0 == p);
                }
            }
        }
        assert forall|i: int| 0 <= i < s.len() implies map_of(s)[#[trigger] s[i].0] == s[i].1 by {
            if i < s.len() - 1 {
                assert(t[i] == s[i]);
                assert(s[i].0 != s[s.len() - 1].0);
            }
        }
    }
}

/// The running server instances: a shutdown control per port, at most one
/// per port.
pub struct Registry<H> {
    entries: Vec<(u16, H)>,
}

impl<H> View for Registry<H> {
    type V = Map<u16, H>;

    closed spec fn view(&self) -> Map<u16, H> {
        map_of(self.entries@)
    }
}

impl<H> Registry<H> {
    pub closed spec fn wf(&self) -> bool {
        ports_distinct(self.entries@)
    }

    pub fn new() -> (r: Registry<H>)
        ensures
            r.wf(),
            r@ == Map::<u16, H>::empty(),
    {
        Registry { entries: Vec::new() }
    }

    /// Whether a server instance is running on `port`.
    pub fn is_running(&self, port: u16) -> (r: bool)
        requires
            self.wf(),
        ensures
            r == self@.contains_key(port),
    {
        proof {
            lemma_map_of(self.entries@);
        }
        let mut i: usize = 0;
        while i < self.entries.len()
            invariant
                i <= self.entries@.len(),
                ports_distinct(self.entries@),
                forall|k: int| 0 <= k < i ==> self.entries@[k].0 != port,
            decreases self.entries.len() - i,
        {
            if self.entries[i].0 == port {
                proof {
                    lemma_map_of(self.entries@);
                    assert(self.entries@[i as int].0 == port);
                }
                return true;
            }
            i = i + 1;
        }
        proof {
            lemma_map_of(self.entries@);
        }
        false
    }

    /// Records the shutdown control of a new instance on `port`. A port that
    /// already has a running instance is refused, and the control handed back.
    pub fn start(&mut self, port: u16, handle: H) -> (r: Result<(), H>)
        requires
            old(self).wf(),
        ensures
            final(self).wf(),
            old(self)@.contains_key(port) ==> r == Err::<(), H>(handle) && final(self)@ == old(
                self,
            )@,
            !old(self)@.contains_key(port) ==> r is Ok && final(self)@ == old(self)@.insert(
                port,
                handle,
            ),
    {
        if self.is_running(port) {
            return Err(handle);
        }
        proof {
            lemma_map_of(self.entries@);
        }
        let ghost before = self.entries@;
        self.entries.push((port, handle));
        proof {
            assert(self.entries@.subrange(0, before.len() as int) =~= before);
            assert forall|i: int, j: int| 0 <= i < j < self.entries@.len() implies self.entries@[i].0
                != self.entries@[j].0 by {
                if j == before.len() {
                    assert(self.entries@[i] == before[i]);
                }
            }
        }
        Ok(())
    }

    /// Removes the instance on `port` and hands back its shutdown control,
    /// if one is running there. Other ports keep their instances.
    pub fn stop(&mut self, port: u16) -> (r: Option<H>)
        requires
            old(self).wf(),
        ensures
            final(self).wf(),
            old(self)@.contains_key(port) ==> r == Some(old(self)@[port]) && final(self)@ == old(
                self,
            )@.remove(port),
            !old(self)@.contains_key(port) ==> r is None && final(self)@ == old(self)@,
    {
        proof {
            lemma_map_of(self.entries@);
        }
        let mut i: usize = 0;
        while i < self.entries.len()
            invariant
                i <= self.entries@.len(),
                self.entries@ == old(self).entries@,
                ports_distinct(self.entries@),
                forall|k: int| 0 <= k < i ==> self.entries@[k].0 != port,
            decreases self.entries.len() - i,
        {
            if self.entries[i].0 == port {
                let ghost before = self.entries@;
                let (_, h) = self.entries.remove(i);
                proof {
                    lemma_map_of(before);
                    assert(before[i as int].0 == port);
                    let after = self.entries@;
                    assert(after =~= before.remove(i as int));
                    assert forall|a: int, b: int| 0 <= a < b < after.len() implies after[a].0
                        != after[b].0 by {
                        let a2 = if a < i { a } else { a + 1 };
                        let b2 = if b < i { b } else { b + 1 };
                        assert(after[a] == before[a2]);
                        assert(after[b] == before[b2]);
                    }
                    lemma_map_of(after);
                    assert forall|p: u16| #[trigger] map_of(before).remove(port).contains_key(p)
                        implies map_of(after).contains_key(p) by {
                        {
                            let k = choose|k: int| 0 <= k < before.len() && before[k].0 == p;
                            if k < i {
                                assert(after[k] == before[k]);
                            } else {
                                assert(after[k - 1] == before[k]);
                            }
                        }
                    }
                    assert forall|p: u16| #[trigger] map_of(after).contains_key(p) implies map_of(
                        before,
                    ).remove(port).contains_key(p) && map_of(after)[p] == map_of(before)[p] by {
                        let k = choose|k: int| 0 <= k < after.len() && after[k].0 == p;
                        let k2 = if k < i { k } else { k + 1 };
                        assert(after[k] == before[k2]);
                    }
                    assert(map_of(after) =~= map_of(before).remove(port));
                }
                return Some(h);
            }
            i = i + 1;
        }
        proof {
            lemma_map_of(self.entries@);
        }
        None
    }
}

/// Instances on distinct ports are independent: stopping the one on `a`
/// ends it and leaves the one on `b` registered with the same control.
pub proof fn lemma_stop_independent<H>(running: Map<u16, H>, a: u16, b: u16)
    requires
        a != b,
        running.contains_key(b),
    ensures
        !running.remove(a).contains_key(a),
        running.remove(a).contains_key(b),
        running.remove(a)[b] == running[b],
{
}

} // verus!
