//! Translation of external EAN/GTIN codes to internal SAP material numbers
//! (MATNR). Every EAN passed to downstream subgraphs must first pass the
//! whitelist and be translated; unknown EANs are rejected.
use std::sync::Arc;
use vstd::prelude::*;

use crate::keyed_store::KeyedStore;
use crate::text::digit_char;

verus! {

pub struct MatnrEntry {
    pub ean: String,
    pub matnr: String,
    /// SAP material type code (e.g. "FERT" = finished good, "HAWA" =
    /// trading good).
    pub material_type: String,
}

impl Clone for MatnrEntry {
    fn clone(&self) -> (r: Self)
        ensures
            r == *self,
    {
        MatnrEntry {
            ean: self.ean.clone(),
            matnr: self.matnr.clone(),
            material_type: self.material_type.clone(),
        }
    }
}

/// An entry as (EAN, MATNR, material type).
pub type MatnrView = (Seq<char>, Seq<char>, Seq<char>);

pub open spec fn matnr_view(e: MatnrEntry) -> MatnrView {
    (e.ean@, e.matnr@, e.material_type@)
}

/// The mapping `m` after upserting each entry of `t` in order, each under
/// its own EAN.
pub open spec fn upserted(m: Map<Seq<char>, MatnrView>, t: Seq<MatnrView>) -> Map<
    Seq<char>,
    MatnrView,
>
    decreases t.len(),
{
    if t.len() == 0 {
        m
    } else {
        upserted(m, t.drop_last()).insert(t.last().0, t.last())
    }
}

/// The starter set of EAN to MATNR mappings: (EAN, MATNR, material type).
pub open spec fn seed_table() -> Seq<MatnrView> {
    seq![
        ("4012345678901"@, "000000000001000001"@, "HAWA"@),
        ("4012345678902"@, "000000000001000002"@, "HAWA"@),
        ("4012345678903"@, "000000000001000003"@, "HAWA"@),
        ("4012345678904"@, "000000000001000004"@, "FERT"@),
        ("4012345678905"@, "000000000001000005"@, "HAWA"@),
        ("4012345100000"@, "000000000001000006"@, "HAWA"@),
        ("4012345100001"@, "000000000001000007"@, "HAWA"@),
        ("4012345100002"@, "000000000001000008"@, "HAWA"@),
        ("4012345100003"@, "000000000001000009"@, "FERT"@),
        ("4012345100004"@, "000000000001000010"@, "HAWA"@),
        ("4012345100005"@, "000000000001000011"@, "HAWA"@),
        ("4012345100006"@, "000000000001000012"@, "HAWA"@),
        ("4012345100007"@, "000000000001000013"@, "HAWA"@),
        ("4012345100008"@, "000000000001000014"@, "HAWA"@),
        ("4012345100009"@, "000000000001000015"@, "HAWA"@),
        ("4012345999999"@, "000000000001000016"@, "HAWA"@),
        ("4012345100010"@, "000000000001000017"@, "HAWA"@)
    ]
}

pub fn seed_entries() -> (v: Vec<MatnrEntry>)
    ensures
        v@.map_values(|e: MatnrEntry| matnr_view(e)) == seed_table(),
{
    let mut v: Vec<MatnrEntry> = Vec::new();
    v.push(MatnrEntry {
        ean: "4012345678901".to_owned(),
        matnr: "000000000001000001".to_owned(),
        material_type: "HAWA".to_owned(),
    });
    v.push(MatnrEntry {
        ean: "4012345678902".to_owned(),
        matnr: "000000000001000002".to_owned(),
        material_type: "HAWA".to_owned(),
    });
    v.push(MatnrEntry {
        ean: "4012345678903".to_owned(),
        matnr: "000000000001000003".to_owned(),
        material_type: "HAWA".to_owned(),
    });
    v.push(MatnrEntry {
        ean: "4012345678904".to_owned(),
        matnr: "000000000001000004".to_owned(),
        material_type: "FERT".to_owned(),
    });
    v.push(MatnrEntry {
        ean: "4012345678905".to_owned(),
        matnr: "000000000001000005".to_owned(),
        material_type: "HAWA".to_owned(),
    });
    v.push(MatnrEntry {
        ean: "4012345100000".to_owned(),
        matnr: "000000000001000006".to_owned(),
        material_type: "HAWA".to_owned(),
    });
    v.push(MatnrEntry {
        ean: "4012345100001".to_owned(),
        matnr: "000000000001000007".to_owned(),
        material_type: "HAWA".to_owned(),
    });
    v.push(MatnrEntry {
        ean: "4012345100002".to_owned(),
        matnr: "000000000001000008".to_owned(),
        material_type: "HAWA".to_owned(),
    });
    v.push(MatnrEntry {
        ean: "4012345100003".to_owned(),
        matnr: "000000000001000009".to_owned(),
        material_type: "FERT".to_owned(),
    });
    v.push(MatnrEntry {
        ean: "4012345100004".to_owned(),
        matnr: "000000000001000010".to_owned(),
        material_type: "HAWA".to_owned(),
    });
    v.push(MatnrEntry {
        ean: "4012345100005".to_owned(),
        matnr: "000000000001000011".to_owned(),
        material_type: "HAWA".to_owned(),
    });
    v.push(MatnrEntry {
        ean: "4012345100006".to_owned(),
        matnr: "000000000001000012".to_owned(),
        material_type: "HAWA".to_owned(),
    });
    v.push(MatnrEntry {
        ean: "4012345100007".to_owned(),
        matnr: "000000000001000013".to_owned(),
        material_type: "HAWA".to_owned(),
    });
    v.push(MatnrEntry {
        ean: "4012345100008".to_owned(),
        matnr: "000000000001000014".to_owned(),
        material_type: "HAWA".to_owned(),
    });
    v.push(MatnrEntry {
        ean: "4012345100009".to_owned(),
        matnr: "000000000001000015".to_owned(),
        material_type: "HAWA".to_owned(),
    });
    v.push(MatnrEntry {
        ean: "4012345999999".to_owned(),
        matnr: "000000000001000016".to_owned(),
        material_type: "HAWA".to_owned(),
    });
    v.push(MatnrEntry {
        ean: "4012345100010".to_owned(),
        matnr: "000000000001000017".to_owned(),
        material_type: "HAWA".to_owned(),
    });
    assert(v@.map_values(|e: MatnrEntry| matnr_view(e)) =~= seed_table());
    v
}

/// EAN to MATNR mapping.
pub struct IdTranslator {
    ean_to_matnr: KeyedStore<MatnrEntry>,
}

impl IdTranslator {
    /// The mapping, entries taken by their views.
    pub closed spec fn view(&self) -> Map<Seq<char>, MatnrView> {
        self.ean_to_matnr.view().map_values(|e: MatnrEntry| matnr_view(e))
    }

    /// Well-formedness; every entry is stored under its own EAN.
    pub closed spec fn wf(&self) -> bool {
        &&& self.ean_to_matnr.wf()
        &&& forall|k: Seq<char>| #[trigger] self.ean_to_matnr.view().contains_key(k)
            ==> self.ean_to_matnr.view()[k].ean@ == k
    }

    /// Every mapping is stored under the EAN it names.
    pub proof fn lemma_keyed_by_ean(&self)
        requires
            self.wf(),
        ensures
            forall|k: Seq<char>| #[trigger] self.view().contains_key(k) ==> self.view()[k].0 == k,
            self.view().dom().finite(),
    {
        self.ean_to_matnr.lemma_slots();
        assert(self.view().dom() =~= self.ean_to_matnr.view().dom());
    }

    pub fn new() -> (r: Self)
        ensures
            r.wf(),
            r.view() == Map::<Seq<char>, MatnrView>::empty(),
    {
        let r = Self { ean_to_matnr: KeyedStore::new() };
        assert(r.view() =~= Map::<Seq<char>, MatnrView>::empty());
        r
    }

    /// A translator holding the starter set of mappings.
    pub fn with_seed_data() -> (r: Self)
        ensures
            r.wf(),
            r.view() == upserted(Map::empty(), seed_table()),
    {
        let mut translator = Self::new();
        let entries = seed_entries();
        let mut i: usize = 0;
        while i < entries.len()
            invariant
                translator.wf(),
                i <= entries@.len(),
                entries@.map_values(|e: MatnrEntry| matnr_view(e)) == seed_table(),
                translator.view() == upserted(Map::empty(), seed_table().take(i as int)),
            decreases entries@.len() - i,
        {
            proof {
                let t = seed_table();
                assert(t.take(i + 1).drop_last() =~= t.take(i as int));
                assert(t.take(i + 1).last() == matnr_view(entries@[i as int]));
            }
            translator.upsert(entries[i].clone());
            i += 1;
        }
        proof {
            assert(seed_table().take(entries@.len() as int) =~= seed_table());
        }
        translator
    }

    /// Inserts or replaces the mapping for `entry.ean`.
    pub fn upsert(&mut self, entry: MatnrEntry)
        requires
            old(self).wf(),
        ensures
            final(self).wf(),
            final(self).view() == old(self).view().insert(entry.ean@, matnr_view(entry)),
    {
        let ean = entry.ean.clone();
        let ghost e = entry;
        self.ean_to_matnr.insert(ean, entry);
        assert(final(self).view() =~= old(self).view().insert(e.ean@, matnr_view(e)));
    }

    /// Whether the EAN has a known mapping.
    pub fn is_whitelisted(&self, ean: &str) -> (r: bool)
        requires
            self.wf(),
        ensures
            r == self.view().contains_key(ean@),
    {
        self.ean_to_matnr.contains_key(ean)
    }

    /// The mapping for an EAN; `None` when it is not whitelisted.
    pub fn translate(&self, ean: &str) -> (r: Option<Arc<MatnrEntry>>)
        requires
            self.wf(),
        ensures
            match r {
                Some(e) => self.view().contains_key(ean@) && matnr_view(*e) == self.view()[ean@],
                None => !self.view().contains_key(ean@),
            },
    {
        match self.ean_to_matnr.get(ean) {
            Some(entry) => Some(Arc::new(entry.clone())),
            None => None,
        }
    }

    /// Number of mappings.
    pub fn len(&self) -> (r: usize)
        requires
            self.wf(),
        ensures
            r == self.view().len(),
    {
        proof {
            self.ean_to_matnr.lemma_slots();
            assert(self.view().dom() =~= self.ean_to_matnr.view().dom());
        }
        self.ean_to_matnr.len()
    }

    /// All whitelisted EANs, each once, in no particular order.
    pub fn known_eans(&self) -> (r: Vec<String>)
        requires
            self.wf(),
        ensures
            r@.map_values(|s: String| s@).no_duplicates(),
            r@.map_values(|s: String| s@).to_set() == self.view().dom(),
    {
        let r = self.ean_to_matnr.keys();
        proof {
            self.ean_to_matnr.lemma_slots();
            let ko = self.ean_to_matnr.key_order();
            assert forall|k: Seq<char>| ko.contains(k) implies self.view().contains_key(k) by {
                let i = choose|i: int| 0 <= i < ko.len() && ko[i] == k;
                assert(self.ean_to_matnr.view().contains_key(ko[i]));
            }
            assert(ko.to_set() =~= self.view().dom());
        }
        r
    }
}

impl Default for IdTranslator {
    fn default() -> (r: Self)
        ensures
            r.wf(),
            r.view() == upserted(Map::empty(), seed_table()),
    {
        Self::with_seed_data()
    }
}

/// After an upsert the translator answers the entry's EAN with that entry, replacing what it held
/// before, and answers every other EAN as before.
pub proof fn lemma_upsert_then_translate(m: Map<Seq<char>, MatnrView>, e: MatnrView, ean: Seq<char>)
    ensures
        m.insert(e.0, e).contains_key(e.0),
        m.insert(e.0, e)[e.0] == e,
        ean != e.0 ==> m.insert(e.0, e).contains_key(ean) == m.contains_key(ean),
        ean != e.0 && m.contains_key(ean) ==> m.insert(e.0, e)[ean] == m[ean],
{
}

/// `n` written with exactly `width` decimal digits, zero-padded on the left
/// (the lowest `width` digits where `n` has more).
pub open spec fn padded_decimal(n: nat, width: nat) -> Seq<char>
    decreases width,
{
    if width == 0 {
        Seq::empty()
    } else {
        padded_decimal(n / 10, (width - 1) as nat).push(digit_char((n % 10) as int))
    }
}

/// The seeded mapping follows the SAP export: its seventeen rows carry the
/// material numbers 1000001 to 1000017 in row order, each written as an
/// 18-digit MATNR; so no two whitelisted EANs share a material number.
pub proof fn lemma_seed_matnrs_numbered()
    ensures
        seed_table().len() == 17,
        forall|i: int| 0 <= i < 17 ==> #[trigger] seed_table()[i].1 == padded_decimal((1_000_001 + i) as nat, 18),
        forall|i: int, j: int| 0 <= i < j < 17 ==> #[trigger] seed_table()[i].1 != #[trigger] seed_table()[j].1,
{
    let t = seed_table();
    reveal_strlit("000000000001000001");
    reveal_strlit("000000000001000002");
    reveal_strlit("000000000001000003");
    reveal_strlit("000000000001000004");
    reveal_strlit("000000000001000005");
    reveal_strlit("000000000001000006");
    reveal_strlit("000000000001000007");
    reveal_strlit("000000000001000008");
    reveal_strlit("000000000001000009");
    reveal_strlit("000000000001000010");
    reveal_strlit("000000000001000011");
    reveal_strlit("000000000001000012");
    reveal_strlit("000000000001000013");
    reveal_strlit("000000000001000014");
    reveal_strlit("000000000001000015");
    reveal_strlit("000000000001000016");
    reveal_strlit("000000000001000017");
    reveal_with_fuel(padded_decimal, 19);
    assert(t[0].1 =~= padded_decimal(1000001, 18));
    assert(t[1].1 =~= padded_decimal(1000002, 18));
    assert(t[2].1 =~= padded_decimal(1000003, 18));
    assert(t[3].1 =~= padded_decimal(1000004, 18));
    assert(t[4].1 =~= padded_decimal(1000005, 18));
    assert(t[5].1 =~= padded_decimal(1000006, 18));
    assert(t[6].1 =~= padded_decimal(1000007, 18));
    assert(t[7].1 =~= padded_decimal(1000008, 18));
    assert(t[8].1 =~= padded_decimal(1000009, 18));
    assert(t[9].1 =~= padded_decimal(1000010, 18));
    assert(t[10].1 =~= padded_decimal(1000011, 18));
    assert(t[11].1 =~= padded_decimal(1000012, 18));
    assert(t[12].1 =~= padded_decimal(1000013, 18));
    assert(t[13].1 =~= padded_decimal(1000014, 18));
    assert(t[14].1 =~= padded_decimal(1000015, 18));
    assert(t[15].1 =~= padded_decimal(1000016, 18));
    assert(t[16].1 =~= padded_decimal(1000017, 18));
    assert forall|i: int, j: int| 0 <= i < j < 17 implies #[trigger] t[i].1 != #[trigger] t[j].1 by {
        if (i + 1) / 10 == (j + 1) / 10 {
            assert(t[i].1[17] != t[j].1[17]);
        } else {
            assert(t[i].1[16] != t[j].1[16]);
        }
    }
}

} // verus!
