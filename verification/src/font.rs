//! The font registry: fonts loaded from raw binaries into a `fontdb`
//! database, with verified bookkeeping between asset keys and the face IDs
//! the database assigned to them.

use vstd::prelude::*;

verus! {

/// Registers the font registry and its upkeep with a host application.
#[derive(Debug)]
pub struct FontPlugin;

/// Declares `fontdb::Database` so registry fields can hold one.
#[verifier::external_type_specification]
#[verifier::external_body]
pub struct ExDatabase(fontdb::Database);

/// Declares `fontdb::ID`, the key of a face in the database.
#[verifier::external_type_specification]
#[verifier::external_body]
pub struct ExID(fontdb::ID);

/// Relies on `fontdb::Database::new`: an empty font database.
#[verifier::external_body]
fn new_font_db() -> fontdb::Database {
    fontdb::Database::new()
}

/// Relies on `fontdb::Database::load_font_source`: loads every face of the
/// given font binary into the database and returns the IDs it assigned;
/// malformed faces are skipped.
#[verifier::external_body]
fn db_load_font_data(db: &mut fontdb::Database, data: Vec<u8>) -> Vec<fontdb::ID> {
    db.load_font_source(fontdb::Source::Binary(std::sync::Arc::new(data))).into_iter().collect()
}

/// Relies on `fontdb::Database::remove_face`: removes the face with that
/// ID, if it is present.
#[verifier::external_body]
fn db_remove_face(db: &mut fontdb::Database, id: fontdb::ID) {
    db.remove_face(id)
}

/// Relies on `fontdb::Database::query`: the best matching face for a
/// CSS-like query, trying the first family before the fallback.
#[verifier::external_body]
fn db_query(
    db: &fontdb::Database,
    family: &str,
    fallback: &str,
    weight: u16,
    italic: bool,
) -> Option<fontdb::ID> {
    db.query(
        &fontdb::Query {
            families: &[fontdb::Family::Name(family), fontdb::Family::Name(fallback)],
            weight: fontdb::Weight(weight),
            stretch: fontdb::Stretch::Normal,
            style: if italic {
                fontdb::Style::Italic
            } else {
                fontdb::Style::Normal
            },
        },
    )
}

/// Relies on `fontdb::ID`'s derived `PartialEq`: whether the two IDs are
/// the same value.
#[verifier::external_body]
fn id_eq(a: &fontdb::ID, b: &fontdb::ID) -> (r: bool)
    ensures
        r == (a == b),
{
    a == b
}

/// The asset key the first matching entry maps the face ID to.
spec fn fa_find(v: Seq<(fontdb::ID, u64)>, id: fontdb::ID) -> Option<u64>
    decreases v.len(),
{
    if v.len() == 0 {
        None
    } else if v[0].0 == id {
        Some(v[0].1)
    } else {
        fa_find(v.skip(1), id)
    }
}

/// The face IDs the first matching entry holds for the asset key.
spec fn af_find(v: Seq<(u64, Vec<fontdb::ID>)>, a: u64) -> Option<Seq<fontdb::ID>>
    decreases v.len(),
{
    if v.len() == 0 {
        None
    } else if v[0].0 == a {
        Some(v[0].1@)
    } else {
        af_find(v.skip(1), a)
    }
}

proof fn lemma_fa_find_concat(x: Seq<(fontdb::ID, u64)>, y: Seq<(fontdb::ID, u64)>, id: fontdb::ID)
    ensures
        fa_find(x + y, id) == (match fa_find(x, id) {
            Some(a) => Some(a),
            None => fa_find(y, id),
        }),
    decreases x.len(),
{
    if x.len() == 0 {
        assert(x + y =~= y);
    } else {
        assert((x + y)[0] == x[0]);
        assert((x + y).skip(1) =~= x.skip(1) + y);
        lemma_fa_find_concat(x.skip(1), y, id);
    }
}

proof fn lemma_af_find_concat(
    x: Seq<(u64, Vec<fontdb::ID>)>,
    y: Seq<(u64, Vec<fontdb::ID>)>,
    a: u64,
)
    ensures
        af_find(x + y, a) == (match af_find(x, a) {
            Some(ids) => Some(ids),
            None => af_find(y, a),
        }),
    decreases x.len(),
{
    if x.len() == 0 {
        assert(x + y =~= y);
    } else {
        assert((x + y)[0] == x[0]);
        assert((x + y).skip(1) =~= x.skip(1) + y);
        lemma_af_find_concat(x.skip(1), y, a);
    }
}

/// Maps asset keys to loaded font faces and back, on top of a `fontdb`
/// database that does the actual font matching.
pub struct FontRegistry {
    /// A mapping from asset keys to face IDs.
    ///
    /// Needed to properly clean up removed fonts.
    asset_to_font_id: Vec<(u64, Vec<fontdb::ID>)>,
    /// A mapping from face IDs to asset keys.
    ///
    /// Needed to determine which asset to hand out for a font query.
    font_to_asset_id: Vec<(fontdb::ID, u64)>,
    /// The internal database used to query fonts.
    font_db: fontdb::Database,
}

impl FontRegistry {
    /// The asset key a face ID resolves to.
    pub closed spec fn spec_font_asset(self, id: fontdb::ID) -> Option<u64> {
        fa_find(self.font_to_asset_id@, id)
    }

    /// The face IDs registered for an asset key.
    pub closed spec fn spec_asset_faces(self, asset: u64) -> Option<Seq<fontdb::ID>> {
        af_find(self.asset_to_font_id@, asset)
    }

    /// An empty registry over an empty database.
    pub fn new() -> (r: Self)
        ensures
            forall|a: u64| (#[trigger] r.spec_asset_faces(a)) is None,
            forall|id: fontdb::ID| (#[trigger] r.spec_font_asset(id)) is None,
    {
        FontRegistry {
            asset_to_font_id: Vec::new(),
            font_to_asset_id: Vec::new(),
            font_db: new_font_db(),
        }
    }

    /// Load the font faces of the given binary and register them under the
    /// given asset key. The faces the database assigned become the asset's
    /// face list, each of them resolves back to the asset, and every other
    /// lookup is unchanged.
    #[verifier::loop_isolation(false)]
    pub fn add(&mut self, asset_id: u64, data: Vec<u8>)
        ensures
            final(self).spec_asset_faces(asset_id) is Some,
            forall|a: u64|
                a != asset_id ==> #[trigger] final(self).spec_asset_faces(a) == old(
                    self,
                ).spec_asset_faces(a),
            forall|id: fontdb::ID|
                final(self).spec_asset_faces(asset_id).unwrap().contains(id)
                    ==> #[trigger] final(self).spec_font_asset(id) == Some(asset_id),
            forall|id: fontdb::ID|
                !final(self).spec_asset_faces(asset_id).unwrap().contains(id)
                    ==> #[trigger] final(self).spec_font_asset(id) == old(self).spec_font_asset(id),
    {
        let ids = db_load_font_data(&mut self.font_db, data);
        let ghost idsv = ids@;
        let ghost f0 = self.font_to_asset_id@;
        let n = ids.len();
        let mut k: usize = 0;
        while k < n
            invariant
                0 <= k <= n,
                self.asset_to_font_id == old(self).asset_to_font_id,
                forall|id: fontdb::ID| #[trigger]
                    fa_find(self.font_to_asset_id@, id) == (if idsv.take(k as int).contains(id) {
                        Some(asset_id)
                    } else {
                        fa_find(f0, id)
                    }),
            decreases n - k,
        {
            let ghost fprev = self.font_to_asset_id@;
            let id = ids[k];
            self.font_to_asset_id.insert(0, (id, asset_id));
            proof {
                assert(self.font_to_asset_id@ =~= seq![(idsv[k as int], asset_id)] + fprev);
                assert forall|q: fontdb::ID| #[trigger]
                    fa_find(self.font_to_asset_id@, q) == (if idsv.take(k + 1).contains(q) {
                        Some(asset_id)
                    } else {
                        fa_find(f0, q)
                    }) by {
                    assert(fa_find(fprev, q) == (if idsv.take(k as int).contains(q) {
                        Some(asset_id)
                    } else {
                        fa_find(f0, q)
                    }));
                    assert(self.font_to_asset_id@.skip(1) =~= fprev);
                    assert(self.font_to_asset_id@[0] == (idsv[k as int], asset_id));
                    assert(idsv.take(k + 1) =~= idsv.take(k as int).push(idsv[k as int]));
                    if idsv.take(k + 1).contains(q) {
                        let j = choose|j: int|
                            0 <= j < idsv.take(k + 1).len() && (#[trigger] idsv.take(k + 1)[j]) == q;
                        if j < k {
                            assert(idsv.take(k as int)[j] == q);
                            assert(idsv.take(k as int).contains(q));
                        }
                    }
                    if idsv.take(k as int).contains(q) {
                        let j = choose|j: int|
                            0 <= j < idsv.take(k as int).len() && (#[trigger] idsv.take(k as int)[j]) == q;
                        assert(idsv.take(k + 1)[j] == q);
                        assert(idsv.take(k + 1).contains(q));
                    }
                    if q == idsv[k as int] {
                        assert(idsv.take(k + 1)[k as int] == q);
                        assert(idsv.take(k + 1).contains(q));
                    }
                }
            }
            k = k + 1;
        }
        let ghost a0 = self.asset_to_font_id@;
        self.asset_to_font_id.insert(0, (asset_id, ids));
        proof {
            assert(self.asset_to_font_id@.skip(1) =~= a0);
            assert(self.asset_to_font_id@[0].0 == asset_id);
            assert(self.asset_to_font_id@[0].1@ == idsv);
            assert(idsv.take(n as int) =~= idsv);
            assert(self.spec_asset_faces(asset_id) == Some(idsv));
            assert forall|a: u64|
                a != asset_id implies #[trigger] self.spec_asset_faces(a) == old(
                self,
            ).spec_asset_faces(a) by {
                assert(af_find(self.asset_to_font_id@, a) == af_find(a0, a));
            }
            assert forall|q: fontdb::ID|
                self.spec_asset_faces(asset_id).unwrap().contains(q) implies #[trigger] self.spec_font_asset(
                q,
            ) == Some(asset_id) by {
                assert(fa_find(self.font_to_asset_id@, q) == (if idsv.take(n as int).contains(q) {
                    Some(asset_id)
                } else {
                    fa_find(f0, q)
                }));
            }
            assert forall|q: fontdb::ID|
                !self.spec_asset_faces(asset_id).unwrap().contains(q) implies #[trigger] self.spec_font_asset(
                q,
            ) == old(self).spec_font_asset(q) by {
                assert(fa_find(self.font_to_asset_id@, q) == (if idsv.take(n as int).contains(q) {
                    Some(asset_id)
                } else {
                    fa_find(f0, q)
                }));
            }
        }
    }

    /// Remove every entry whose face ID is `id` from the face map.
    #[verifier::loop_isolation(false)]
    fn purge_font_entries(&mut self, id: fontdb::ID)
        ensures
            final(self).asset_to_font_id == old(self).asset_to_font_id,
            final(self).font_db == old(self).font_db,
            forall|q: fontdb::ID| #[trigger]
                final(self).spec_font_asset(q) == (if q == id {
                    None::<u64>
                } else {
                    old(self).spec_font_asset(q)
                }),
    {
        let ghost f0 = self.font_to_asset_id@;
        let n = self.font_to_asset_id.len();
        let mut out: Vec<(fontdb::ID, u64)> = Vec::new();
        let mut k: usize = 0;
        while k < n
            invariant
                0 <= k <= n,
                n == f0.len(),
                self.font_to_asset_id@ == f0,
                forall|q: fontdb::ID| #[trigger]
                    fa_find(out@, q) == (if q == id {
                        None::<u64>
                    } else {
                        fa_find(f0.take(k as int), q)
                    }),
            decreases n - k,
        {
            let ghost oprev = out@;
            let entry = &self.font_to_asset_id[k];
            let keep = !id_eq(&entry.0, &id);
            if keep {
                out.push((entry.0, entry.1));
            }
            proof {
                assert(f0.take(k + 1) =~= f0.take(k as int).push(f0[k as int]));
                assert forall|q: fontdb::ID| #[trigger]
                    fa_find(out@, q) == (if q == id {
                        None::<u64>
                    } else {
                        fa_find(f0.take(k + 1), q)
                    }) by {
                    reveal_with_fuel(fa_find, 3);
                    assert(fa_find(oprev, q) == (if q == id {
                        None::<u64>
                    } else {
                        fa_find(f0.take(k as int), q)
                    }));
                    lemma_fa_find_concat(f0.take(k as int), seq![f0[k as int]], q);
                    assert(f0.take(k as int) + seq![f0[k as int]] =~= f0.take(k + 1));
                    assert(seq![f0[k as int]].skip(1) =~= Seq::<(fontdb::ID, u64)>::empty());
                    if keep {
                        assert(out@ =~= oprev.push(f0[k as int]));
                        lemma_fa_find_concat(oprev, seq![f0[k as int]], q);
                        assert(oprev + seq![f0[k as int]] =~= out@);
                    } else {
                        assert(out@ == oprev);
                        assert(f0[k as int].0 == id);
                    }
                }
            }
            k = k + 1;
        }
        proof {
            assert(f0.take(n as int) =~= f0);
        }
        self.font_to_asset_id = out;
    }

    /// Remove every entry whose asset key is `asset` from the asset map.
    #[verifier::loop_isolation(false)]
    fn purge_asset_entries(&mut self, asset: u64)
        ensures
            final(self).font_to_asset_id == old(self).font_to_asset_id,
            final(self).font_db == old(self).font_db,
            forall|a: u64| #[trigger]
                final(self).spec_asset_faces(a) == (if a == asset {
                    None::<Seq<fontdb::ID>>
                } else {
                    old(self).spec_asset_faces(a)
                }),
    {
        let ghost a0 = self.asset_to_font_id@;
        let mut out: Vec<(u64, Vec<fontdb::ID>)> = Vec::new();
        proof {
            assert(a0.skip(0) =~= a0);
        }
        while self.asset_to_font_id.len() > 0
            invariant
                self.font_to_asset_id == old(self).font_to_asset_id,
                self.font_db == old(self).font_db,
                self.asset_to_font_id@.len() <= a0.len(),
                self.asset_to_font_id@ == a0.skip(a0.len() - self.asset_to_font_id@.len()),
                forall|a: u64| #[trigger]
                    af_find(out@, a) == (if a == asset {
                        None::<Seq<fontdb::ID>>
                    } else {
                        af_find(a0.take(a0.len() - self.asset_to_font_id@.len()), a)
                    }),
            decreases self.asset_to_font_id.len(),
        {
            let ghost k = a0.len() - self.asset_to_font_id@.len();
            let ghost oprev = out@;
            let entry = self.asset_to_font_id.remove(0);
            proof {
                assert(a0.skip(k as int)[0] == a0[k as int]);
                assert(entry == a0[k as int]);
                assert(self.asset_to_font_id@ =~= a0.skip(k as int + 1));
            }
            let keep = entry.0 != asset;
            if keep {
                out.push(entry);
            }
            proof {
                assert forall|a: u64| #[trigger]
                    af_find(out@, a) == (if a == asset {
                        None::<Seq<fontdb::ID>>
                    } else {
                        af_find(a0.take(k as int + 1), a)
                    }) by {
                    reveal_with_fuel(af_find, 3);
                    assert(af_find(oprev, a) == (if a == asset {
                        None::<Seq<fontdb::ID>>
                    } else {
                        af_find(a0.take(k as int), a)
                    }));
                    lemma_af_find_concat(a0.take(k as int), seq![a0[k as int]], a);
                    assert(a0.take(k as int) + seq![a0[k as int]] =~= a0.take(k as int + 1));
                    assert(seq![a0[k as int]].skip(1) =~= Seq::<(u64, Vec<fontdb::ID>)>::empty());
                    if keep {
                        lemma_af_find_concat(oprev, seq![a0[k as int]], a);
                        assert(oprev + seq![a0[k as int]] =~= out@);
                    } else {
                        assert(out@ == oprev);
                        assert(a0[k as int].0 == asset);
                    }
                }
            }
        }
        proof {
            assert(a0.take(a0.len() as int) =~= a0);
        }
        self.asset_to_font_id = out;
    }

    /// Remove the font faces registered under the given asset key: their
    /// faces leave the database and both maps; when the key is absent
    /// nothing changes.
    pub fn remove(&mut self, asset_id: u64)
        ensures
            forall|a: u64| #[trigger]
                final(self).spec_asset_faces(a) == (if a == asset_id {
                    None::<Seq<fontdb::ID>>
                } else {
                    old(self).spec_asset_faces(a)
                }),
            forall|id: fontdb::ID|
                old(self).spec_asset_faces(asset_id) matches Some(ids) && ids.contains(id)
                    ==> (#[trigger] final(self).spec_font_asset(id)) is None,
            forall|id: fontdb::ID|
                (match old(self).spec_asset_faces(asset_id) {
                    Some(ids) => !ids.contains(id),
                    None => true,
                }) ==> #[trigger] final(self).spec_font_asset(id) == old(self).spec_font_asset(id),
    {
        let idx = match self.find_asset_index(asset_id) {
            Some(i) => i,
            None => {
                return ;
            },
        };
        let ghost ids0 = self.asset_to_font_id@[idx as int].1@;
        let n = self.asset_to_font_id[idx].1.len();
        let mut k: usize = 0;
        while k < n
            invariant
                0 <= k <= n,
                idx < self.asset_to_font_id@.len(),
                self.asset_to_font_id == old(self).asset_to_font_id,
                n == ids0.len(),
                ids0 == self.asset_to_font_id@[idx as int].1@,
                forall|q: fontdb::ID| #[trigger]
                    self.spec_font_asset(q) == (if ids0.take(k as int).contains(q) {
                        None::<u64>
                    } else {
                        old(self).spec_font_asset(q)
                    }),
            decreases n - k,
        {
            let ghost pre = *self;
            let id = self.asset_to_font_id[idx].1[k];
            db_remove_face(&mut self.font_db, id);
            self.purge_font_entries(id);
            proof {
                assert forall|q: fontdb::ID| #[trigger]
                    self.spec_font_asset(q) == (if ids0.take(k as int + 1).contains(q) {
                        None::<u64>
                    } else {
                        old(self).spec_font_asset(q)
                    }) by {
                    assert(ids0.take(k as int + 1) =~= ids0.take(k as int).push(ids0[k as int]));
                    assert(pre.spec_font_asset(q) == (if ids0.take(k as int).contains(q) {
                        None::<u64>
                    } else {
                        old(self).spec_font_asset(q)
                    }));
                    assert(self.spec_font_asset(q) == (if q == id {
                        None::<u64>
                    } else {
                        pre.spec_font_asset(q)
                    }));
                    if ids0.take(k as int + 1).contains(q) {
                        let j = choose|j: int|
                            0 <= j < ids0.take(k as int + 1).len() && (#[trigger] ids0.take(k as int + 1)[j])
                                == q;
                        if j < k {
                            assert(ids0.take(k as int)[j] == q);
                            assert(ids0.take(k as int).contains(q));
                        }
                    }
                    if ids0.take(k as int).contains(q) {
                        let j = choose|j: int|
                            0 <= j < ids0.take(k as int).len() && (#[trigger] ids0.take(k as int)[j]) == q;
                        assert(ids0.take(k as int + 1)[j] == q);
                        assert(ids0.take(k as int + 1).contains(q));
                    }
                    if q == ids0[k as int] {
                        assert(ids0.take(k as int + 1)[k as int] == q);
                        assert(ids0.take(k as int + 1).contains(q));
                    }
                }
            }
            k = k + 1;
        }
        proof {
            assert(ids0.take(n as int) =~= ids0);
        }
        let ghost afterloop = *self;
        self.purge_asset_entries(asset_id);
        proof {
            assert(old(self).spec_asset_faces(asset_id) == Some(ids0));
            assert(self.font_to_asset_id == afterloop.font_to_asset_id);
            assert forall|q: fontdb::ID|
                ids0.contains(q) implies (#[trigger] self.spec_font_asset(q)) is None by {
                assert(afterloop.spec_font_asset(q) == (if ids0.contains(q) {
                    None::<u64>
                } else {
                    old(self).spec_font_asset(q)
                }));
            }
            assert forall|q: fontdb::ID|
                !ids0.contains(q) implies #[trigger] self.spec_font_asset(q) == old(
                self,
            ).spec_font_asset(q) by {
                assert(afterloop.spec_font_asset(q) == (if ids0.contains(q) {
                    None::<u64>
                } else {
                    old(self).spec_font_asset(q)
                }));
            }
        }
    }

    /// The position of the first entry for the asset key, and what it
    /// holds.
    #[verifier::loop_isolation(false)]
    fn find_asset_index(&self, asset: u64) -> (r: Option<usize>)
        ensures
            match r {
                Some(i) => i < self.asset_to_font_id@.len() && self.spec_asset_faces(asset)
                    == Some(self.asset_to_font_id@[i as int].1@) && self.asset_to_font_id@[i as int].0
                    == asset,
                None => self.spec_asset_faces(asset) is None,
            },
    {
        let ghost a0 = self.asset_to_font_id@;
        let n = self.asset_to_font_id.len();
        proof {
            assert(a0.skip(0) =~= a0);
        }
        let mut i: usize = 0;
        while i < n
            invariant
                0 <= i <= n,
                af_find(a0, asset) == af_find(a0.skip(i as int), asset),
            decreases n - i,
        {
            proof {
                assert(a0.skip(i as int)[0] == a0[i as int]);
                assert(a0.skip(i as int).skip(1) =~= a0.skip(i as int + 1));
            }
            if self.asset_to_font_id[i].0 == asset {
                return Some(i);
            }
            i = i + 1;
        }
        None
    }

    /// Replace the font faces registered under the given asset key with
    /// the faces of the given binary.
    pub fn update(&mut self, asset_id: u64, data: Vec<u8>)
        ensures
            final(self).spec_asset_faces(asset_id) is Some,
            forall|a: u64|
                a != asset_id ==> #[trigger] final(self).spec_asset_faces(a) == old(
                    self,
                ).spec_asset_faces(a),
            forall|id: fontdb::ID|
                final(self).spec_asset_faces(asset_id).unwrap().contains(id)
                    ==> #[trigger] final(self).spec_font_asset(id) == Some(asset_id),
    {
        self.remove(asset_id);
        self.add(asset_id, data);
    }

    /// The asset key a face ID resolves to.
    #[verifier::loop_isolation(false)]
    pub fn asset_for_face(&self, id: fontdb::ID) -> (r: Option<u64>)
        ensures
            r == self.spec_font_asset(id),
    {
        let ghost f0 = self.font_to_asset_id@;
        let n = self.font_to_asset_id.len();
        proof {
            assert(f0.skip(0) =~= f0);
        }
        let mut i: usize = 0;
        while i < n
            invariant
                0 <= i <= n,
                fa_find(f0, id) == fa_find(f0.skip(i as int), id),
            decreases n - i,
        {
            proof {
                assert(f0.skip(i as int)[0] == f0[i as int]);
                assert(f0.skip(i as int).skip(1) =~= f0.skip(i as int + 1));
            }
            if id_eq(&self.font_to_asset_id[i].0, &id) {
                return Some(self.font_to_asset_id[i].1);
            }
            i = i + 1;
        }
        None
    }

    /// Find the best matching font asset for a query: the given family
    /// first, then the fallback family, at the given weight, italic or
    /// not. Which face the database picks is its own affair; the result is
    /// the asset key registered for that face.
    pub fn query(
        &self,
        family: &str,
        fallback_family: &str,
        weight: u16,
        italic: bool,
    ) -> (r: Option<u64>)
        ensures
            match r {
                Some(a) => exists|id: fontdb::ID| #[trigger] self.spec_font_asset(id) == Some(a),
                None => true,
            },
    {
        match db_query(&self.font_db, family, fallback_family, weight, italic) {
            Some(id) => {
                let r = self.asset_for_face(id);
                proof {
                    if r is Some {
                        assert(self.spec_font_asset(id) == Some(r.unwrap()));
                    }
                }
                r
            },
            None => None,
        }
    }
}

impl Default for FontRegistry {
    /// An empty registry.
    fn default() -> (r: Self)
        ensures
            forall|a: u64| (#[trigger] r.spec_asset_faces(a)) is None,
            forall|id: fontdb::ID| (#[trigger] r.spec_font_asset(id)) is None,
    {
        FontRegistry::new()
    }
}


/// One change a host reports about a font asset: newly loaded with its
/// data, modified with its new data, or removed.
#[derive(Debug)]
pub enum FontAssetEvent {
    Added { asset_id: u64, data: Vec<u8> },
    Modified { asset_id: u64, data: Vec<u8> },
    Removed { asset_id: u64 },
}

/// Track when fonts are loaded, modified or removed and update the font
/// registry accordingly: a load registers the faces of the data under the
/// asset key, a modification replaces them, a removal drops them.
pub fn update_font_registry(registry: &mut FontRegistry, event: FontAssetEvent)
    ensures
        match event {
            FontAssetEvent::Added { asset_id, data } => final(registry).spec_asset_faces(asset_id)
                is Some && (forall|a: u64|
                a != asset_id ==> #[trigger] final(registry).spec_asset_faces(a) == old(
                    registry,
                ).spec_asset_faces(a)) && (forall|id: fontdb::ID|
                final(registry).spec_asset_faces(asset_id).unwrap().contains(id)
                    ==> #[trigger] final(registry).spec_font_asset(id) == Some(asset_id)),
            FontAssetEvent::Modified { asset_id, data } => final(registry).spec_asset_faces(
                asset_id,
            ) is Some && (forall|a: u64|
                a != asset_id ==> #[trigger] final(registry).spec_asset_faces(a) == old(
                    registry,
                ).spec_asset_faces(a)) && (forall|id: fontdb::ID|
                final(registry).spec_asset_faces(asset_id).unwrap().contains(id)
                    ==> #[trigger] final(registry).spec_font_asset(id) == Some(asset_id)),
            FontAssetEvent::Removed { asset_id } => final(registry).spec_asset_faces(asset_id)
                is None && (forall|a: u64|
                a != asset_id ==> #[trigger] final(registry).spec_asset_faces(a) == old(
                    registry,
                ).spec_asset_faces(a)),
        },
{
    match event {
        FontAssetEvent::Added { asset_id, data } => registry.add(asset_id, data),
        FontAssetEvent::Modified { asset_id, data } => registry.update(asset_id, data),
        FontAssetEvent::Removed { asset_id } => registry.remove(asset_id),
    }
}

} // verus!

