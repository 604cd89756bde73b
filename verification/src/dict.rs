//! One immutable table version: records indexed by their normalized address.
//! Built wholesale from a record list; on duplicate keys the record later in
//! the list silently overwrites the earlier one.

use vstd::prelude::*;
use vstd::map::*;
use crate::normalize::{norm_spec, normalize};
use crate::record::{msg_spec, MemoAddress, MemoView};

verus! {

/// The views of a record sequence.
pub open spec fn views_of(records: Seq<MemoAddress>) -> Seq<MemoView> {
    records.map_values(|r: MemoAddress| r@)
}

/// The table that a record sequence builds: each record inserted under its
/// normalized address, in order, so on a key collision the later record
/// wins.
pub open spec fn dict_of(records: Seq<MemoView>) -> Map<Seq<char>, MemoView>
    decreases records.len(),
{
    if records.len() == 0 {
        Map::<Seq<char>, MemoView>::empty()
    } else {
        dict_of(records.drop_last()).insert(
            norm_spec(records.last().address),
            records.last(),
        )
    }
}

/// One table version. Its view is the key-to-record map it represents; the
/// keys held inside are pairwise distinct.
pub struct AddressDict {
    keys: Vec<String>,
    vals: Vec<MemoAddress>,
}

impl View for AddressDict {
    type V = Map<Seq<char>, MemoView>;

    closed spec fn view(&self) -> Map<Seq<char>, MemoView> {
        self.map_upto(self.keys@.len() as int)
    }
}

impl AddressDict {
    /// Internal well-formedness: one value per key, keys pairwise distinct.
    pub closed spec fn wf(self) -> bool {
        &&& self.keys@.len() == self.vals@.len()
        &&& forall|i: int, j: int|
            0 <= i < j < self.keys@.len() ==> (#[trigger] self.keys@[i]@) != (
            #[trigger] self.keys@[j]@)
    }

    /// The map formed by the first `n` key/value pairs.
    closed spec fn map_upto(self, n: int) -> Map<Seq<char>, MemoView>
        decreases n,
    {
        if n <= 0 {
            Map::<Seq<char>, MemoView>::empty()
        } else {
            self.map_upto(n - 1).insert(self.keys@[n - 1]@, self.vals@[n - 1]@)
        }
    }

    proof fn lemma_map_upto_key(self, n: int, k: Seq<char>)
        requires
            self.wf(),
            0 <= n <= self.keys@.len(),
        ensures
            self.map_upto(n).dom().finite(),
            self.map_upto(n).contains_key(k) <==> exists|i: int|
                0 <= i < n && #[trigger] self.keys@[i]@ == k,
            forall|i: int|
                0 <= i < n && #[trigger] self.keys@[i]@ == k ==> self.map_upto(n)[k]
                    == self.vals@[i]@,
        decreases n,
    {
        if n > 0 {
            self.lemma_map_upto_key(n - 1, k);
            if self.keys@[n - 1]@ == k {
                assert(self.map_upto(n).contains_key(k));
            } else {
                if self.map_upto(n).contains_key(k) {
                    assert(self.map_upto(n - 1).contains_key(k));
                }
                if exists|i: int| 0 <= i < n && #[trigger] self.keys@[i]@ == k {
                    let i = choose|i: int| 0 <= i < n && #[trigger] self.keys@[i]@ == k;
                    assert(0 <= i < n - 1 && self.keys@[i]@ == k);
                }
            }
        }
    }

    proof fn lemma_map_upto_len(self, n: int)
        requires
            self.wf(),
            0 <= n <= self.keys@.len(),
        ensures
            self.map_upto(n).dom().finite(),
            self.map_upto(n).dom().len() == n,
        decreases n,
    {
        if n > 0 {
            self.lemma_map_upto_len(n - 1);
            self.lemma_map_upto_key(n - 1, self.keys@[n - 1]@);
            assert(!self.map_upto(n - 1).contains_key(self.keys@[n - 1]@));
            assert(self.map_upto(n).dom() =~= self.map_upto(n - 1).dom().insert(
                self.keys@[n - 1]@,
            ));
            vstd::set::axiom_set_insert_len(self.map_upto(n - 1).dom(), self.keys@[n - 1]@);
        }
    }

    /// Two tables whose first `n` entries look alike form the same map up to
    /// `n`.
    proof fn lemma_map_upto_agree(a: AddressDict, b: AddressDict, n: int)
        requires
            0 <= n <= a.keys@.len(),
            n <= b.keys@.len(),
            n <= a.vals@.len(),
            n <= b.vals@.len(),
            forall|i: int|
                0 <= i < n ==> #[trigger] a.keys@[i]@ == b.keys@[i]@ && a.vals@[i]@
                    == b.vals@[i]@,
        ensures
            a.map_upto(n) == b.map_upto(n),
        decreases n,
    {
        if n > 0 {
            Self::lemma_map_upto_agree(a, b, n - 1);
        }
    }

    /// An empty table.
    pub fn empty() -> (d: AddressDict)
        ensures
            d.wf(),
            d@ == Map::<Seq<char>, MemoView>::empty(),
    {
        AddressDict { keys: Vec::new(), vals: Vec::new() }
    }

    /// How many records the table holds.
    pub fn len(&self) -> (n: usize)
        requires
            self.wf(),
        ensures
            n == self@.dom().len(),
            self@.dom().finite(),
    {
        proof {
            self.lemma_map_upto_len(self.keys@.len() as int);
        }
        self.keys.len()
    }

    /// Inserts one record under a key, replacing any record the key already
    /// maps to.
    fn insert_record(&mut self, key: String, val: MemoAddress)
        requires
            old(self).wf(),
        ensures
            final(self).wf(),
            final(self)@ == old(self)@.insert(key@, val@),
    {
        let n = self.keys.len();
        let ghost pre = *self;
        let mut i: usize = 0;
        while i < n
            invariant
                i <= n,
                n == self.keys@.len(),
                self.wf(),
                *self == pre,
                pre == *old(self),
                forall|j: int| 0 <= j < i ==> #[trigger] self.keys@[j]@ != key@,
            decreases n - i,
        {
            if self.keys[i].eq(&key) {
                self.vals[i] = val;
                proof {
                    Self::lemma_map_upto_update(pre, *self, i as int, n as int, key@, val@);
                }
                return ;
            }
            i = i + 1;
        }
        self.keys.push(key);
        self.vals.push(val);
        proof {
            Self::lemma_map_upto_agree(pre, *self, n as int);
        }
    }

    /// Replacing the value at one index replaces exactly that key's entry.
    proof fn lemma_map_upto_update(
        a: AddressDict,
        b: AddressDict,
        idx: int,
        n: int,
        k: Seq<char>,
        v: MemoView,
    )
        requires
            a.wf(),
            0 <= idx < a.keys@.len(),
            0 <= n <= a.keys@.len(),
            b.keys@ == a.keys@,
            b.vals@ == a.vals@.update(idx, b.vals@[idx]),
            b.vals@[idx]@ == v,
            a.keys@[idx]@ == k,
            b.vals@.len() == a.vals@.len(),
        ensures
            idx < n ==> b.map_upto(n) == a.map_upto(n).insert(k, v),
            idx >= n ==> b.map_upto(n) == a.map_upto(n),
        decreases n,
    {
        if n > 0 {
            Self::lemma_map_upto_update(a, b, idx, n - 1, k, v);
            if idx == n - 1 {
                assert(b.map_upto(n) =~= a.map_upto(n).insert(k, v));
            } else if idx < n - 1 {
                assert(a.keys@[n - 1]@ != k);
                assert(b.map_upto(n) =~= a.map_upto(n).insert(k, v));
            } else {
                assert(b.map_upto(n) =~= a.map_upto(n));
            }
        }
    }

    /// Looks a normalized key up, returning the record it maps to.
    pub fn lookup<'a>(&'a self, key: &String) -> (r: Option<&'a MemoAddress>)
        requires
            self.wf(),
        ensures
            r is Some <==> self@.contains_key(key@),
            r is Some ==> r.unwrap()@ == self@[key@],
    {
        let n = self.keys.len();
        let mut i: usize = 0;
        while i < n
            invariant
                i <= n,
                n == self.keys@.len(),
                self.wf(),
                forall|j: int| 0 <= j < i ==> #[trigger] self.keys@[j]@ != key@,
            decreases n - i,
        {
            if self.keys[i].eq(key) {
                proof {
                    self.lemma_map_upto_key(n as int, key@);
                }
                return Some(&self.vals[i]);
            }
            i = i + 1;
        }
        proof {
            self.lemma_map_upto_key(n as int, key@);
        }
        None
    }
}

/// Builds one table version from a record list: each record is indexed under
/// its normalized address; on a collision the later record silently
/// overwrites the earlier one.
pub fn init_address_dict(address_list: Vec<MemoAddress>) -> (d: AddressDict)
    ensures
        d.wf(),
        d@ == dict_of(views_of(address_list@)),
{
    let ghost orig: Seq<MemoView> = views_of(address_list@);
    let mut rest = address_list;
    let ghost mut k: int = 0;
    let mut d = AddressDict::empty();
    proof {
        assert(orig.take(0) =~= Seq::<MemoView>::empty());
    }
    while rest.len() > 0
        invariant
            0 <= k <= orig.len(),
            views_of(rest@) == orig.skip(k),
            d.wf(),
            d@ == dict_of(orig.take(k)),
        decreases rest@.len(),
    {
        let ghost rest_pre = rest@;
        let memo_addr = rest.remove(0);
        proof {
            assert(views_of(rest_pre).len() == rest_pre.len());
            assert(orig.skip(k).len() == orig.len() - k);
            assert(k < orig.len());
            assert(rest@ =~= rest_pre.skip(1));
            assert(views_of(rest_pre)[0] == rest_pre[0]@);
            assert(orig.skip(k)[0] == orig[k]);
            assert(memo_addr@ == orig[k]);
            assert(views_of(rest@) =~= orig.skip(k + 1)) by {
                assert forall|i: int| 0 <= i < rest@.len() implies #[trigger] views_of(rest@)[i]
                    == orig.skip(k + 1)[i] by {
                    assert(views_of(rest@)[i] == rest@[i]@);
                    assert(rest@[i] == rest_pre[i + 1]);
                    assert(views_of(rest_pre)[i + 1] == rest_pre[i + 1]@);
                    assert(orig.skip(k)[i + 1] == orig[k + i + 1]);
                    assert(orig.skip(k + 1)[i] == orig[k + 1 + i]);
                }
            }
        }
        let key = normalize(memo_addr.address.as_str());
        d.insert_record(key, memo_addr);
        proof {
            assert(orig.take(k + 1).drop_last() =~= orig.take(k));
            assert(orig.take(k + 1).last() == orig[k]);
            assert(dict_of(orig.take(k + 1)) == dict_of(orig.take(k)).insert(
                norm_spec(orig[k].address),
                orig[k],
            ));
            k = k + 1;
        }
    }
    proof {
        assert(orig.skip(k).len() == 0);
        assert(k == orig.len());
        assert(orig.take(k) =~= orig);
    }
    d
}

/// Resolves a candidate string against a table: the string is normalized,
/// looked up, and on a hit the record's notification body is returned.
pub fn get_address_label(address: &str, address_dict: &AddressDict) -> (r: Result<String, String>)
    requires
        address_dict.wf(),
    ensures
        r is Ok <==> address_dict@.contains_key(norm_spec(address@)),
        r is Ok ==> r.unwrap()@ == msg_spec(address_dict@[norm_spec(address@)]),
        r is Err ==> r.unwrap_err()@ == "Not Found"@,
{
    let parsed_address = normalize(address);
    match address_dict.lookup(&parsed_address) {
        Some(memo_addr) => Ok(crate::record::get_msg_from_memo(memo_addr)),
        None => Err("Not Found".to_owned()),
    }
}

/// Build collision policy and round trip: for a record whose normalized
/// address no later record in the list shares, the built table holds that
/// key and maps it to exactly that record. With duplicate keys this says the
/// record latest in input order is the one retained — the earlier one is not
/// retrievable.
pub proof fn lemma_build_last_wins(records: Seq<MemoView>, i: int)
    requires
        0 <= i < records.len(),
        forall|j: int|
            i < j < records.len() ==> norm_spec(#[trigger] records[j].address) != norm_spec(
                records[i].address,
            ),
    ensures
        dict_of(records).contains_key(norm_spec(records[i].address)),
        dict_of(records)[norm_spec(records[i].address)] == records[i],
    decreases records.len(),
{
    if i == records.len() - 1 {
        assert(records.last() == records[i]);
    } else {
        let prefix = records.drop_last();
        assert(records.last() == records[records.len() - 1]);
        assert(norm_spec(records.last().address) != norm_spec(records[i].address));
        assert(prefix[i] == records[i]);
        assert forall|j: int|
            i < j < prefix.len() implies norm_spec(#[trigger] prefix[j].address) != norm_spec(
            prefix[i].address,
        ) by {
            assert(prefix[j] == records[j]);
        }
        lemma_build_last_wins(prefix, i);
    }
}

/// Round trip: looking a record's own address up in the table its list
/// built returns that record's label, chain and description intact,
/// provided no record later in the list shares its normalized address.
pub proof fn lemma_build_round_trip(records: Seq<MemoView>, i: int)
    requires
        0 <= i < records.len(),
        forall|j: int|
            i < j < records.len() ==> norm_spec(#[trigger] records[j].address) != norm_spec(
                records[i].address,
            ),
    ensures
        dict_of(records).contains_key(norm_spec(records[i].address)),
        dict_of(records)[norm_spec(records[i].address)].label == records[i].label,
        dict_of(records)[norm_spec(records[i].address)].chain == records[i].chain,
        dict_of(records)[norm_spec(records[i].address)].description == records[i].description,
{
    lemma_build_last_wins(records, i);
}

} // verus!
