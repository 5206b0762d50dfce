use vstd::prelude::*;

use crate::bytes::{bytes_eq, copy_bytes};

verus! {

/// One stored attachment: the owner it belongs to, the period it was
/// submitted under, its filename, and its content.
pub struct StoredFile {
    pub owner: Vec<u8>,
    pub period: Vec<u8>,
    pub name: Vec<u8>,
    pub data: Vec<u8>,
}

/// The files visible under one (owner, period) bucket, as a map from
/// filename to content.  A later entry for the same triple overwrites an
/// earlier one: last write wins.
pub open spec fn files_map(s: Seq<StoredFile>, owner: Seq<u8>, period: Seq<u8>) -> Map<
    Seq<u8>,
    Seq<u8>,
>
    decreases s.len(),
{
    if s.len() == 0 {
        Map::empty()
    } else {
        let rest = files_map(s.drop_last(), owner, period);
        if s.last().owner@ == owner && s.last().period@ == period {
            rest.insert(s.last().name@, s.last().data@)
        } else {
            rest
        }
    }
}

/// The periods under which `owner` has at least one stored file.
pub open spec fn period_set(s: Seq<StoredFile>, owner: Seq<u8>) -> Set<Seq<u8>>
    decreases s.len(),
{
    if s.len() == 0 {
        Set::empty()
    } else {
        let rest = period_set(s.drop_last(), owner);
        if s.last().owner@ == owner {
            rest.insert(s.last().period@)
        } else {
            rest
        }
    }
}

/// Unfolds `files_map` at the front of the journal: a leading entry only
/// shows through where no later entry overwrites its filename.
pub proof fn lemma_files_map_cons(s: Seq<StoredFile>, e: StoredFile, owner: Seq<u8>, period: Seq<u8>)
    ensures
        files_map(seq![e] + s, owner, period) == (
        if e.owner@ == owner && e.period@ == period && !files_map(s, owner, period).contains_key(
            e.name@,
        ) {
            files_map(s, owner, period).insert(e.name@, e.data@)
        } else {
            files_map(s, owner, period)
        }),
    decreases s.len(),
{
    let t = seq![e] + s;
    if s.len() == 0 {
        assert(t.drop_last() =~= Seq::<StoredFile>::empty());
        assert(t.last() == e);
        assert(files_map(t.drop_last(), owner, period) == Map::<Seq<u8>, Seq<u8>>::empty());
        assert(files_map(s, owner, period) == Map::<Seq<u8>, Seq<u8>>::empty());
        if e.owner@ == owner && e.period@ == period {
            assert(files_map(t, owner, period) == files_map(s, owner, period).insert(
                e.name@,
                e.data@,
            ));
        } else {
            assert(files_map(t, owner, period) == files_map(s, owner, period));
        }
    } else {
        let d = s.drop_last();
        assert(t.drop_last() =~= seq![e] + d);
        assert(t.last() == s.last());
        lemma_files_map_cons(d, e, owner, period);
        let m_d = files_map(d, owner, period);
        let m_s = files_map(s, owner, period);
        let last_matches = s.last().owner@ == owner && s.last().period@ == period;
        if last_matches {
            assert(m_s == m_d.insert(s.last().name@, s.last().data@));
            assert(files_map(t, owner, period) == files_map(t.drop_last(), owner, period).insert(
                s.last().name@,
                s.last().data@,
            ));
        } else {
            assert(m_s == m_d);
            assert(files_map(t, owner, period) == files_map(t.drop_last(), owner, period));
        }
        if e.owner@ == owner && e.period@ == period && !m_d.contains_key(e.name@) {
            // the leading entry shows through in the tail without its last element
            assert(files_map(t.drop_last(), owner, period) == m_d.insert(e.name@, e.data@));
            if last_matches {
                let ln = s.last().name@;
                let ld = s.last().data@;
                if ln == e.name@ {
                    assert(m_d.insert(e.name@, e.data@).insert(ln, ld) =~= m_d.insert(ln, ld));
                    assert(m_s.contains_key(e.name@));
                    assert(files_map(t, owner, period) == m_s);
                } else {
                    assert(m_d.insert(e.name@, e.data@).insert(ln, ld) =~= m_d.insert(
                        ln,
                        ld,
                    ).insert(e.name@, e.data@));
                    assert(!m_s.contains_key(e.name@));
                    assert(files_map(t, owner, period) == m_s.insert(e.name@, e.data@));
                }
            } else {
                assert(!m_s.contains_key(e.name@));
                assert(files_map(t, owner, period) == m_s.insert(e.name@, e.data@));
            }
        } else {
            assert(files_map(t.drop_last(), owner, period) == m_d);
            if e.owner@ == owner && e.period@ == period {
                assert(m_d.contains_key(e.name@));
                assert(m_s.contains_key(e.name@));
            }
            assert(files_map(t, owner, period) == m_s);
        }
    }
}

/// A period is listed for an owner exactly when that bucket holds at least
/// one file.
pub proof fn lemma_period_listed_iff_has_files(s: Seq<StoredFile>, owner: Seq<u8>, period: Seq<u8>)
    ensures
        period_set(s, owner).contains(period) <==> exists|n: Seq<u8>|
            files_map(s, owner, period).contains_key(n),
    decreases s.len(),
{
    if s.len() > 0 {
        lemma_period_listed_iff_has_files(s.drop_last(), owner, period);
        if s.last().owner@ == owner && s.last().period@ == period {
            assert(files_map(s, owner, period).contains_key(s.last().name@));
            assert(period_set(s, owner).contains(period));
        } else {
            assert(files_map(s, owner, period) == files_map(s.drop_last(), owner, period));
            if exists|n: Seq<u8>| files_map(s.drop_last(), owner, period).contains_key(n) {
                let n = choose|n: Seq<u8>|
                    files_map(s.drop_last(), owner, period).contains_key(n);
                assert(files_map(s, owner, period).contains_key(n));
            }
            if exists|n: Seq<u8>| files_map(s, owner, period).contains_key(n) {
                let n = choose|n: Seq<u8>| files_map(s, owner, period).contains_key(n);
                assert(files_map(s.drop_last(), owner, period).contains_key(n));
            }
            assert(period_set(s, owner).contains(period) == period_set(
                s.drop_last(),
                owner,
            ).contains(period));
        }
    }
}

/// Last write wins: storing a second file under the same (owner, period,
/// filename) triple leaves only the most recent content in the bucket, and
/// the bucket is otherwise what a single store of that content would give.
pub proof fn lemma_overwrite_last_write_wins(s: Seq<StoredFile>, e1: StoredFile, e2: StoredFile)
    requires
        e1.owner@ == e2.owner@,
        e1.period@ == e2.period@,
        e1.name@ == e2.name@,
    ensures
        files_map(s.push(e1).push(e2), e2.owner@, e2.period@) == files_map(
            s,
            e2.owner@,
            e2.period@,
        ).insert(e2.name@, e2.data@),
        files_map(s.push(e1).push(e2), e2.owner@, e2.period@)[e2.name@] == e2.data@,
{
    let t1 = s.push(e1);
    let t2 = t1.push(e2);
    assert(t2.drop_last() =~= t1);
    assert(t1.drop_last() =~= s);
    let m = files_map(s, e2.owner@, e2.period@);
    assert(files_map(t1, e2.owner@, e2.period@) == m.insert(e1.name@, e1.data@));
    assert(files_map(t2, e2.owner@, e2.period@) == m.insert(e1.name@, e1.data@).insert(
        e2.name@,
        e2.data@,
    ));
    assert(m.insert(e1.name@, e1.data@).insert(e2.name@, e2.data@) =~= m.insert(
        e2.name@,
        e2.data@,
    ));
}

/// One member of a built archive: a filename and the bytes filed under it.
pub struct ArchiveFile {
    pub name: Vec<u8>,
    pub data: Vec<u8>,
}

/// An archive matches a bucket when it lists each of the bucket's files
/// exactly once, with its content, and nothing else.
pub open spec fn archive_matches(ar: Seq<ArchiveFile>, m: Map<Seq<u8>, Seq<u8>>) -> bool {
    &&& forall|j1: int, j2: int|
        0 <= j1 < j2 < ar.len() ==> ar[j1].name@ != ar[j2].name@
    &&& forall|j: int|
        0 <= j < ar.len() ==> m.contains_key(#[trigger] ar[j].name@) && m[ar[j].name@]
            == ar[j].data@
    &&& forall|k: Seq<u8>|
        m.contains_key(k) ==> exists|j: int| 0 <= j < ar.len() && #[trigger] ar[j].name@ == k
}

/// Round trip: an archive built right after an ingest holds the ingested
/// file with exactly its bytes; every other member is a file that was
/// already in the bucket, unchanged; and every prior file under another
/// name is still a member.
pub proof fn lemma_store_retrieve_round_trip(
    s: Seq<StoredFile>,
    e: StoredFile,
    ar: Seq<ArchiveFile>,
)
    requires
        archive_matches(ar, files_map(s.push(e), e.owner@, e.period@)),
    ensures
        exists|j: int|
            0 <= j < ar.len() && #[trigger] ar[j].name@ == e.name@ && ar[j].data@ == e.data@,
        forall|j: int|
            0 <= j < ar.len() && #[trigger] ar[j].name@ != e.name@ ==> files_map(
                s,
                e.owner@,
                e.period@,
            ).contains_key(ar[j].name@) && files_map(s, e.owner@, e.period@)[ar[j].name@]
                == ar[j].data@,
        forall|k: Seq<u8>|
            k != e.name@ && files_map(s, e.owner@, e.period@).contains_key(k) ==> exists|j: int|
                0 <= j < ar.len() && #[trigger] ar[j].name@ == k,
{
    let t = s.push(e);
    assert(t.drop_last() =~= s);
    let m = files_map(s, e.owner@, e.period@);
    let m2 = files_map(t, e.owner@, e.period@);
    assert(m2 == m.insert(e.name@, e.data@));
    assert(m2.contains_key(e.name@));
    let j0 = choose|j: int| 0 <= j < ar.len() && #[trigger] ar[j].name@ == e.name@;
    assert(ar[j0].data@ == m2[e.name@]);
    assert(ar[j0].name@ == e.name@ && ar[j0].data@ == e.data@);
    assert forall|k: Seq<u8>| k != e.name@ && m.contains_key(k) implies exists|j: int|
        0 <= j < ar.len() && #[trigger] ar[j].name@ == k by {
        assert(m2.contains_key(k));
    }
}

/// Whether some member of `ar` already carries filename `name`.
fn archive_has_name(ar: &Vec<ArchiveFile>, name: &Vec<u8>) -> (r: bool)
    ensures
        r == exists|j: int| 0 <= j < ar@.len() && #[trigger] ar@[j].name@ == name@,
{
    let mut i: usize = 0;
    while i < ar.len()
        invariant
            i <= ar@.len(),
            forall|j: int| 0 <= j < i ==> #[trigger] ar@[j].name@ != name@,
        decreases ar@.len() - i,
    {
        if bytes_eq(&ar[i].name, name) {
            return true;
        }
        i = i + 1;
    }
    false
}

/// Whether some member of `ps` equals `period`.
fn list_has_period(ps: &Vec<Vec<u8>>, period: &Vec<u8>) -> (r: bool)
    ensures
        r == exists|j: int| 0 <= j < ps@.len() && #[trigger] ps@[j]@ == period@,
{
    let mut i: usize = 0;
    while i < ps.len()
        invariant
            i <= ps@.len(),
            forall|j: int| 0 <= j < i ==> #[trigger] ps@[j]@ != period@,
        decreases ps@.len() - i,
    {
        if bytes_eq(&ps[i], period) {
            return true;
        }
        i = i + 1;
    }
    false
}

/// The classified store of attachments.  Its view is the journal of ingests
/// in order; what a bucket holds is `files_map` of that journal.
pub struct FileStore {
    entries: Vec<StoredFile>,
}

impl View for FileStore {
    type V = Seq<StoredFile>;

    closed spec fn view(&self) -> Seq<StoredFile> {
        self.entries@
    }
}

impl FileStore {
    /// A store with nothing in it.
    pub fn new() -> (s: Self)
        ensures
            s@ == Seq::<StoredFile>::empty(),
    {
        FileStore { entries: Vec::new() }
    }

    /// Persists one attachment under its (owner, period, filename) triple.
    /// A repeat ingest of the same triple overwrites the prior content;
    /// every other bucket is left exactly as it was.
    pub fn store(&mut self, owner: Vec<u8>, period: Vec<u8>, name: Vec<u8>, data: Vec<u8>)
        ensures
            final(self)@ == old(self)@.push(
                (StoredFile { owner, period, name, data }),
            ),
            files_map(final(self)@, owner@, period@) == files_map(
                old(self)@,
                owner@,
                period@,
            ).insert(name@, data@),
            forall|o2: Seq<u8>, p2: Seq<u8>|
                o2 != owner@ || p2 != period@ ==> files_map(final(self)@, o2, p2) == files_map(
                    old(self)@,
                    o2,
                    p2,
                ),
            period_set(final(self)@, owner@) == period_set(old(self)@, owner@).insert(period@),
            forall|o2: Seq<u8>|
                o2 != owner@ ==> period_set(final(self)@, o2) == period_set(old(self)@, o2),
    {
        let ghost o = owner@;
        let ghost p = period@;
        self.entries.push(StoredFile { owner, period, name, data });
        proof {
            let s_new = self.entries@;
            let s_old = old(self).entries@;
            assert(s_new.drop_last() =~= s_old);
            assert(s_new.last().owner@ == o && s_new.last().period@ == p);
            assert forall|o2: Seq<u8>, p2: Seq<u8>| o2 != o || p2 != p implies files_map(
                s_new,
                o2,
                p2,
            ) == files_map(s_old, o2, p2) by {
                assert(!(s_new.last().owner@ == o2 && s_new.last().period@ == p2));
            }
            assert forall|o2: Seq<u8>| o2 != o implies period_set(s_new, o2) == period_set(
                s_old,
                o2,
            ) by {
                assert(s_new.last().owner@ != o2);
            }
        }
    }

    /// Builds the archive for one (owner, period) bucket: every file the
    /// bucket holds, each exactly once with its current content, and nothing
    /// else.  Returns nothing when the bucket holds no files.
    pub fn build_archive(&self, owner: &Vec<u8>, period: &Vec<u8>) -> (r: Option<Vec<ArchiveFile>>)
        ensures
            match r {
                Some(ar) => archive_matches(ar@, files_map(self@, owner@, period@)) && ar@.len()
                    > 0,
                None => forall|n: Seq<u8>| !files_map(self@, owner@, period@).contains_key(n),
            },
    {
        let mut out: Vec<ArchiveFile> = Vec::new();
        let mut i: usize = self.entries.len();
        proof {
            assert(self.entries@.skip(i as int) =~= Seq::<StoredFile>::empty());
            assert(files_map(Seq::<StoredFile>::empty(), owner@, period@) == Map::<
                Seq<u8>,
                Seq<u8>,
            >::empty());
        }
        while i > 0
            invariant
                i <= self.entries@.len(),
                archive_matches(out@, files_map(self.entries@.skip(i as int), owner@, period@)),
            decreases i,
        {
            i = i - 1;
            let ghost m_old = files_map(self.entries@.skip(i as int + 1), owner@, period@);
            let ghost ee = self.entries@[i as int];
            proof {
                assert(self.entries@.skip(i as int) =~= seq![ee] + self.entries@.skip(
                    i as int + 1,
                ));
                lemma_files_map_cons(self.entries@.skip(i as int + 1), ee, owner@, period@);
            }
            let e = &self.entries[i];
            if bytes_eq(&e.owner, owner) && bytes_eq(&e.period, period) && !archive_has_name(
                &out,
                &e.name,
            ) {
                proof {
                    assert(!m_old.contains_key(ee.name@)) by {
                        if m_old.contains_key(ee.name@) {
                            assert(exists|j: int|
                                0 <= j < out@.len() && #[trigger] out@[j].name@ == ee.name@);
                        }
                    }
                }
                let ghost out_old = out@;
                out.push(ArchiveFile { name: copy_bytes(&e.name), data: copy_bytes(&e.data) });
                proof {
                    let m_new = files_map(self.entries@.skip(i as int), owner@, period@);
                    assert(m_new == m_old.insert(ee.name@, ee.data@));
                    assert forall|j1: int, j2: int| 0 <= j1 < j2 < out@.len() implies out@[j1].name@
                        != out@[j2].name@ by {
                        if j2 == out@.len() - 1 {
                            assert(out@[j1].name@ != ee.name@);
                        }
                    }
                    assert forall|j: int| 0 <= j < out@.len() implies m_new.contains_key(
                        #[trigger] out@[j].name@,
                    ) && m_new[out@[j].name@] == out@[j].data@ by {
                        if j < out@.len() - 1 {
                            assert(m_old.contains_key(out@[j].name@));
                            assert(out@[j].name@ != ee.name@);
                        }
                    }
                    assert forall|k: Seq<u8>| m_new.contains_key(k) implies exists|j: int|
                        0 <= j < out@.len() && #[trigger] out@[j].name@ == k by {
                        if k == ee.name@ {
                            assert(out@[out@.len() - 1].name@ == k);
                        } else {
                            assert(m_old.contains_key(k));
                            let j = choose|j: int|
                                0 <= j < out_old.len() && #[trigger] out_old[j].name@ == k;
                            assert(out@[j].name@ == k);
                        }
                    }
                }
            } else {
                proof {
                    let m_new = files_map(self.entries@.skip(i as int), owner@, period@);
                    if ee.owner@ == owner@ && ee.period@ == period@ {
                        let j = choose|j: int|
                            0 <= j < out@.len() && #[trigger] out@[j].name@ == ee.name@;
                        assert(m_old.contains_key(out@[j].name@));
                        assert(m_new == m_old);
                    } else {
                        assert(m_new == m_old);
                    }
                }
            }
        }
        proof {
            assert(self.entries@.skip(0) =~= self.entries@);
        }
        if out.len() == 0 {
            proof {
                assert forall|n: Seq<u8>| !files_map(self@, owner@, period@).contains_key(n) by {
                    if files_map(self@, owner@, period@).contains_key(n) {
                        assert(exists|j: int|
                            0 <= j < out@.len() && #[trigger] out@[j].name@ == n);
                    }
                }
            }
            None
        } else {
            Some(out)
        }
    }

    /// Lists, without repetition, every period under which `owner` has at
    /// least one stored file.
    pub fn periods_of(&self, owner: &Vec<u8>) -> (r: Vec<Vec<u8>>)
        ensures
            forall|j1: int, j2: int| 0 <= j1 < j2 < r@.len() ==> r@[j1]@ != r@[j2]@,
            forall|j: int|
                0 <= j < r@.len() ==> period_set(self@, owner@).contains(#[trigger] r@[j]@),
            forall|p: Seq<u8>|
                period_set(self@, owner@).contains(p) ==> exists|j: int|
                    0 <= j < r@.len() && #[trigger] r@[j]@ == p,
    {
        let mut out: Vec<Vec<u8>> = Vec::new();
        let mut i: usize = 0;
        while i < self.entries.len()
            invariant
                i <= self.entries@.len(),
                forall|j1: int, j2: int| 0 <= j1 < j2 < out@.len() ==> out@[j1]@ != out@[j2]@,
                forall|j: int|
                    0 <= j < out@.len() ==> period_set(
                        self.entries@.take(i as int),
                        owner@,
                    ).contains(#[trigger] out@[j]@),
                forall|p: Seq<u8>|
                    period_set(self.entries@.take(i as int), owner@).contains(p) ==> exists|j: int|
                        0 <= j < out@.len() && #[trigger] out@[j]@ == p,
            decreases self.entries@.len() - i,
        {
            let ghost set_old = period_set(self.entries@.take(i as int), owner@);
            let ghost ee = self.entries@[i as int];
            proof {
                assert(self.entries@.take(i as int + 1).drop_last() =~= self.entries@.take(
                    i as int,
                ));
                assert(self.entries@.take(i as int + 1).last() == ee);
            }
            let e = &self.entries[i];
            if bytes_eq(&e.owner, owner) && !list_has_period(&out, &e.period) {
                let ghost out_old = out@;
                out.push(copy_bytes(&e.period));
                proof {
                    let set_new = period_set(self.entries@.take(i as int + 1), owner@);
                    assert(set_new == set_old.insert(ee.period@));
                    assert forall|p: Seq<u8>| set_new.contains(p) implies exists|j: int|
                        0 <= j < out@.len() && #[trigger] out@[j]@ == p by {
                        if p == ee.period@ {
                            assert(out@[out@.len() - 1]@ == p);
                        } else {
                            let j = choose|j: int|
                                0 <= j < out_old.len() && #[trigger] out_old[j]@ == p;
                            assert(out@[j]@ == p);
                        }
                    }
                }
            } else {
                proof {
                    let set_new = period_set(self.entries@.take(i as int + 1), owner@);
                    if ee.owner@ == owner@ {
                        let j = choose|j: int|
                            0 <= j < out@.len() && #[trigger] out@[j]@ == ee.period@;
                        assert(set_old.contains(out@[j]@));
                        assert(set_new =~= set_old);
                    } else {
                        assert(set_new == set_old);
                    }
                }
            }
            i = i + 1;
        }
        proof {
            assert(self.entries@.take(self.entries@.len() as int) =~= self.entries@);
        }
        out
    }
}

} // verus!
