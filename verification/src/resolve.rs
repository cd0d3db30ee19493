use vstd::prelude::*;

verus! {

/// Which foreign entity a lookup refers to. Foreign ids are not unique across
/// kinds, so every cache and reply is keyed by the pair `(kind, id)`.
#[derive(Clone, Copy, Debug, PartialEq, Eq, Structural)]
pub enum LookupKind {
    Author,
    Subject,
    Teacher,
    Comment,
}

/// What the remote directory answered for one foreign id: `None` when the
/// lookup failed or found nothing.
#[derive(Debug, Clone)]
pub struct LookupReply {
    pub kind: LookupKind,
    pub fid: i64,
    pub name: Option<String>,
}

/// The remote directory's answers gathered for one run, keyed by
/// `(kind, foreign id)`.
#[derive(Debug, Clone)]
pub struct LookupTable {
    pub replies: Vec<LookupReply>,
}

/// The first reply for `(kind, fid)` in `s`: the outer `None` means the pair
/// was never fetched.
pub open spec fn reply_in(
    s: Seq<LookupReply>,
    kind: LookupKind,
    fid: i64,
) -> Option<Option<Seq<char>>>
    decreases s.len(),
{
    if s.len() == 0 {
        None
    } else if s[0].kind == kind && s[0].fid == fid {
        match s[0].name {
            Some(n) => Some(Some(n@)),
            None => Some(None),
        }
    } else {
        reply_in(s.skip(1), kind, fid)
    }
}

/// The display name the pipeline uses for `(kind, fid)`: the fetched name, or
/// the fixed placeholder when the lookup failed or nothing was fetched.
pub open spec fn spec_resolved(t: LookupTable, kind: LookupKind, fid: i64) -> Seq<char> {
    match reply_in(t.replies@, kind, fid) {
        Some(Some(n)) => n,
        _ => "Nieznany"@,
    }
}

impl LookupTable {
    /// An empty table: every resolution degrades to the placeholder.
    pub fn new() -> (t: LookupTable)
        ensures
            t.replies@.len() == 0,
    {
        LookupTable { replies: Vec::new() }
    }

    /// Record one remote answer.
    pub fn add(&mut self, kind: LookupKind, fid: i64, name: Option<String>)
        ensures
            final(self).replies@.len() == old(self).replies@.len() + 1,
            final(self).replies@.drop_last() == old(self).replies@,
            final(self).replies@.last().kind == kind,
            final(self).replies@.last().fid == fid,
            final(self).replies@.last().name == name,
    {
        self.replies.push(LookupReply { kind, fid, name });
    }

    /// The first reply recorded for `(kind, fid)`, if any.
    pub fn reply(&self, kind: LookupKind, fid: i64) -> (r: Option<Option<String>>)
        ensures
            match r {
                None => reply_in(self.replies@, kind, fid) is None,
                Some(None) => reply_in(self.replies@, kind, fid) == Some(
                    None::<Seq<char>>,
                ),
                Some(Some(n)) => reply_in(self.replies@, kind, fid) == Some(
                    Some(n@),
                ),
            },
    {
        let n = self.replies.len();
        proof {
            assert(self.replies@.skip(0) =~= self.replies@);
        }
        for i in 0..n
            invariant
                n == self.replies@.len(),
                reply_in(self.replies@, kind, fid) == reply_in(
                    self.replies@.skip(i as int),
                    kind,
                    fid,
                ),
        {
            let e = &self.replies[i];
            proof {
                assert(self.replies@.skip(i as int)[0] == self.replies@[i as int]);
                assert(self.replies@.skip(i as int).skip(1) =~= self.replies@.skip(
                    i as int + 1,
                ));
            }
            if e.kind == kind && e.fid == fid {
                return match &e.name {
                    Some(s) => Some(Some(s.clone())),
                    None => Some(None),
                };
            }
        }
        None
    }
}

/// One memoized resolution.
#[derive(Debug, Clone)]
pub struct CacheEntry {
    pub kind: LookupKind,
    pub fid: i64,
    pub name: String,
}

/// The per-run memoizing resolver cache: a miss costs exactly one remote
/// lookup, a hit costs none. It lives for one orchestration run and is never
/// persisted.
#[derive(Debug)]
pub struct ResolverCache {
    pub entries: Vec<CacheEntry>,
}

impl ResolverCache {
    /// The `(kind, fid)` pairs cached so far, in insertion order.
    pub open spec fn pairs(&self) -> Seq<(LookupKind, i64)> {
        self.entries@.map_values(|e: CacheEntry| (e.kind, e.fid))
    }

    /// Whether `(kind, fid)` is cached.
    pub open spec fn has(&self, kind: LookupKind, fid: i64) -> bool {
        self.pairs().contains((kind, fid))
    }

    /// Every cached name is exactly what resolution against `t` yields, so a
    /// hit returns the same name the lookup once did.
    pub open spec fn coherent(&self, t: LookupTable) -> bool {
        forall|i: int|
            0 <= i < self.entries@.len() ==> (#[trigger] self.entries@[i]).name@
                == spec_resolved(t, self.entries@[i].kind, self.entries@[i].fid)
    }

    /// An empty cache, as each run starts with.
    pub fn new() -> (c: ResolverCache)
        ensures
            c.entries@.len() == 0,
    {
        ResolverCache { entries: Vec::new() }
    }

    /// The memoized name for `(kind, fid)`, if present.
    pub fn get(&self, kind: LookupKind, fid: i64) -> (r: Option<String>)
        ensures
            match r {
                Some(n) => self.has(kind, fid) && exists|i: int|
                    0 <= i < self.entries@.len() && (#[trigger] self.entries@[i]).kind == kind
                        && self.entries@[i].fid == fid && self.entries@[i].name@ == n@,
                None => !self.has(kind, fid),
            },
    {
        let n = self.entries.len();
        for i in 0..n
            invariant
                n == self.entries@.len(),
                forall|j: int|
                    0 <= j < i ==> !((#[trigger] self.entries@[j]).kind == kind
                        && self.entries@[j].fid == fid),
        {
            let e = &self.entries[i];
            if e.kind == kind && e.fid == fid {
                proof {
                    assert(self.pairs()[i as int] == (kind, fid));
                }
                return Some(e.name.clone());
            }
        }
        proof {
            assert forall|j: int| 0 <= j < self.pairs().len() implies self.pairs()[j] != (
                kind,
                fid,
            ) by {
                assert(self.pairs()[j] == (self.entries@[j].kind, self.entries@[j].fid));
            }
            if self.has(kind, fid) {
                let j = choose|j: int| 0 <= j < self.pairs().len() && self.pairs()[j] == (kind, fid);
                assert(false);
            }
        }
        None
    }
}

/// Resolve `(kind, fid)` through the memoizing cache: a hit answers from the
/// cache and issues no lookup; a miss issues exactly one lookup against the
/// remote replies in `table`, degrades a failed or absent reply to the fixed
/// placeholder, and memoizes the outcome. The cache grows by exactly the
/// missed pair, so the cache size counts the remote lookups of the run.
pub fn resolve_name(
    cache: &mut ResolverCache,
    table: &LookupTable,
    kind: LookupKind,
    fid: i64,
) -> (name: String)
    requires
        old(cache).coherent(*table),
    ensures
        name@ == spec_resolved(*table, kind, fid),
        final(cache).coherent(*table),
        old(cache).has(kind, fid) ==> *final(cache) == *old(cache),
        !old(cache).has(kind, fid) ==> {
            &&& final(cache).entries@.len() == old(cache).entries@.len() + 1
            &&& final(cache).entries@.drop_last() == old(cache).entries@
            &&& final(cache).pairs() == old(cache).pairs().push((kind, fid))
        },
{
    match cache.get(kind, fid) {
        Some(n) => {
            proof {
                let i = choose|i: int|
                    0 <= i < cache.entries@.len() && (#[trigger] cache.entries@[i]).kind == kind
                        && cache.entries@[i].fid == fid && cache.entries@[i].name@ == n@;
                assert(cache.entries@[i].name@ == spec_resolved(*table, kind, fid));
            }
            n
        },
        None => {
            let fetched = table.reply(kind, fid);
            let name = match fetched {
                Some(Some(n)) => n,
                _ => crate::unknown_name(),
            };
            cache.entries.push(
                CacheEntry { kind, fid, name: name.clone() },
            );
            proof {
                assert(cache.entries@.drop_last() =~= old(cache).entries@);
                assert(cache.pairs() =~= old(cache).pairs().push((kind, fid)));
                assert forall|i: int| 0 <= i < cache.entries@.len() implies (
                #[trigger] cache.entries@[i]).name@ == spec_resolved(
                    *table,
                    cache.entries@[i].kind,
                    cache.entries@[i].fid,
                ) by {
                    if i < cache.entries@.len() - 1 {
                        assert(cache.entries@[i] == old(cache).entries@[i]);
                    }
                }
            }
            name
        },
    }
}

} // verus!
