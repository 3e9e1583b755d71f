use crate::error::Error;
use crate::table::Table;
use crate::types::{
    InvoiceInfo, InvoiceStatus, InvoiceTokenStatus, InvoiceView, KeysetInfo, KeysetView, Proof,
    ProofView,
};
use vstd::prelude::*;

verus! {

/// The tables of the mint, as plain values.
#[verifier::ext_equal]
pub struct DbView {
    /// Keyset id to keyset.
    pub keysets: Map<Seq<char>, KeysetView>,
    /// The id of the keyset that signs new tokens.
    pub active_keyset: Option<Seq<char>>,
    /// The last position of the node's payment stream that was dealt with.
    pub last_pay_index: Option<u64>,
    /// The amount in circulation, in satoshi.
    pub in_circulation: Option<u64>,
    /// Quote hash to invoice record.
    pub invoices: Map<Seq<char>, InvoiceView>,
    /// Payment hash to quote hash.
    pub hashes: Map<Seq<char>, Seq<char>>,
    /// Secret to the token that was redeemed with it.
    pub used_proofs: Map<Seq<char>, ProofView>,
}

impl DbView {
    /// The tables with nothing in them.
    pub open spec fn empty() -> DbView {
        DbView {
            keysets: Map::empty(),
            active_keyset: None,
            last_pay_index: None,
            in_circulation: None,
            invoices: Map::empty(),
            hashes: Map::empty(),
            used_proofs: Map::empty(),
        }
    }

    /// The stream position to go on from; zero where none was written.
    pub open spec fn pay_index(self) -> u64 {
        match self.last_pay_index {
            Some(i) => i,
            None => 0,
        }
    }

    /// The amount in circulation; zero where none was written.
    pub open spec fn circulation(self) -> u64 {
        match self.in_circulation {
            Some(a) => a,
            None => 0,
        }
    }

    /// The secrets that were redeemed.
    pub open spec fn spent(self) -> Set<Seq<char>> {
        self.used_proofs.dom()
    }

    /// The record that a payment hash leads to, through the hash mapping.
    pub open spec fn by_payment_hash(self, payment_hash: Seq<char>) -> Option<InvoiceView> {
        if self.hashes.contains_key(payment_hash) && self.invoices.contains_key(
            self.hashes[payment_hash],
        ) {
            Some(self.invoices[self.hashes[payment_hash]])
        } else {
            None
        }
    }
}

/// The tokens of a request as plain values.
pub open spec fn proof_views(proofs: Seq<Proof>) -> Seq<ProofView> {
    proofs.map_values(|p: Proof| p@)
}

/// `table` after each of `proofs` was written under its secret, in order.
pub open spec fn with_proofs(table: Map<Seq<char>, ProofView>, proofs: Seq<ProofView>) -> Map<
    Seq<char>,
    ProofView,
>
    decreases proofs.len(),
{
    if proofs.len() == 0 {
        table
    } else {
        with_proofs(table, proofs.drop_last()).insert(proofs.last().secret, proofs.last())
    }
}

/// Whether one of `proofs` carries `secret`.
pub open spec fn names_secret(proofs: Seq<ProofView>, secret: Seq<char>) -> bool {
    exists|i: int| 0 <= i < proofs.len() && (#[trigger] proofs[i]).secret == secret
}

/// Writing tokens adds their secrets to the keys and takes none away.
pub proof fn lemma_with_proofs_dom(table: Map<Seq<char>, ProofView>, proofs: Seq<ProofView>)
    ensures
        forall|s: Seq<char>| #[trigger]
            with_proofs(table, proofs).contains_key(s) <==> (table.contains_key(s) || names_secret(
                proofs,
                s,
            )),
    decreases proofs.len(),
{
    if proofs.len() > 0 {
        let front = proofs.drop_last();
        let last = proofs.last();
        lemma_with_proofs_dom(table, front);
        assert forall|s: Seq<char>| names_secret(proofs, s) <==> (names_secret(front, s) || s
            == last.secret) by {
            if names_secret(front, s) {
                let i = choose|i: int| 0 <= i < front.len() && (#[trigger] front[i]).secret == s;
                assert(proofs[i].secret == s);
            }
            if s == last.secret {
                assert(proofs[proofs.len() - 1].secret == s);
            }
            if names_secret(proofs, s) {
                let i = choose|i: int| 0 <= i < proofs.len() && (#[trigger] proofs[i]).secret == s;
                if i < front.len() {
                    assert(front[i].secret == s);
                }
            }
        }
        assert forall|s: Seq<char>| #[trigger]
            with_proofs(table, proofs).contains_key(s) <==> (table.contains_key(s) || names_secret(
                proofs,
                s,
            )) by {
            assert(with_proofs(table, front).contains_key(s) <==> (table.contains_key(s)
                || names_secret(front, s)));
            assert(names_secret(proofs, s) <==> (names_secret(front, s) || s == last.secret));
        }
    } else {
        assert forall|s: Seq<char>| !names_secret(proofs, s) by {}
    }
}

/// The mint's tables: keysets, configuration scalars, invoice records, the
/// payment-hash index and the proofs that were redeemed.
///
/// Every write is whole: a call either makes all of its changes or none.
/// Making the tables outlast the process is left to the caller, who writes
/// what a call changed to disk in one transaction.
pub struct Db {
    keysets: Table<KeysetInfo>,
    active_keyset: Option<String>,
    last_pay_index: Option<u64>,
    in_circulation: Option<u64>,
    invoices: Table<InvoiceInfo>,
    hashes: Table<String>,
    used_proofs: Table<Proof>,
}

impl Db {
    /// Each table holds a key at most once.
    pub closed spec fn wf(&self) -> bool {
        &&& self.keysets.wf()
        &&& self.invoices.wf()
        &&& self.hashes.wf()
        &&& self.used_proofs.wf()
    }

    pub closed spec fn view(&self) -> DbView {
        DbView {
            keysets: self.keysets@.map_values(|k: KeysetInfo| k@),
            active_keyset: match self.active_keyset {
                Some(id) => Some(id@),
                None => None,
            },
            last_pay_index: self.last_pay_index,
            in_circulation: self.in_circulation,
            invoices: self.invoices@.map_values(|i: InvoiceInfo| i@),
            hashes: self.hashes@.map_values(|h: String| h@),
            used_proofs: self.used_proofs@.map_values(|p: Proof| p@),
        }
    }

    /// Empty tables.
    pub fn new() -> (db: Self)
        ensures
            db.wf(),
            db@ == DbView::empty(),
    {
        let db = Db {
            keysets: Table::new(),
            active_keyset: None,
            last_pay_index: None,
            in_circulation: None,
            invoices: Table::new(),
            hashes: Table::new(),
            used_proofs: Table::new(),
        };
        assert(db@.keysets =~= Map::empty());
        assert(db@.invoices =~= Map::empty());
        assert(db@.hashes =~= Map::empty());
        assert(db@.used_proofs =~= Map::empty());
        db
    }

    /// Writes a keyset under its id.
    pub fn add_keyset(&mut self, keyset_info: &KeysetInfo)
        requires
            old(self).wf(),
        ensures
            final(self).wf(),
            final(self)@ == (DbView {
                keysets: old(self)@.keysets.insert(keyset_info.id@, keyset_info@),
                ..old(self)@
            }),
    {
        self.keysets.insert(keyset_info.id.clone(), keyset_info.duplicate());
        assert(self@.keysets =~= old(self)@.keysets.insert(keyset_info.id@, keyset_info@));
    }

    /// Every keyset with its id, each id once.
    pub fn get_all_keyset_info(&self) -> (all: Vec<(String, KeysetInfo)>)
        requires
            self.wf(),
        ensures
            forall|i: int|
                0 <= i < all.len() ==> self@.keysets.contains_key((#[trigger] all[i]).0@)
                    && self@.keysets[all[i].0@] == all[i].1@,
            forall|id: Seq<char>|
                self@.keysets.contains_key(id) ==> exists|i: int|
                    0 <= i < all.len() && (#[trigger] all[i]).0@ == id,
            forall|i: int, j: int|
                0 <= i < j < all.len() ==> (#[trigger] all[i]).0@ != (#[trigger] all[j]).0@,
    {
        let mut all: Vec<(String, KeysetInfo)> = Vec::new();
        let n = self.keysets.len();
        let mut i: usize = 0;
        proof {
            self.keysets.lemma_rows_are_view();
        }
        while i < n
            invariant
                i <= n,
                n == self.keysets.spec_len(),
                all.len() == i,
                forall|j: int|
                    0 <= j < i ==> (#[trigger] all[j]).0@ == self.keysets.key_at(j) && all[j].1
                        == self.keysets.value_at(j),
            decreases n - i,
        {
            let (id, info) = self.keysets.row(i);
            all.push((id.clone(), info.duplicate()));
            i += 1;
        }
        proof {
            assert forall|id: Seq<char>| self@.keysets.contains_key(id) implies exists|i: int|
                0 <= i < all.len() && (#[trigger] all[i]).0@ == id by {
                let j = choose|j: int|
                    0 <= j < self.keysets.spec_len() && #[trigger] self.keysets.key_at(j) == id;
                assert(all[j].0@ == id);
            }
            assert forall|i: int, j: int| 0 <= i < j < all.len() implies (#[trigger] all[i]).0@
                != (#[trigger] all[j]).0@ by {
                assert(self.keysets.key_at(i) != self.keysets.key_at(j));
            }
        }
        all
    }

    /// The keyset that stands under `keyset_id`.
    pub fn get_keyset_info(&self, keyset_id: &str) -> (r: Result<KeysetInfo, Error>)
        requires
            self.wf(),
        ensures
            match r {
                Ok(info) => self@.keysets.contains_key(keyset_id@) && info@
                    == self@.keysets[keyset_id@],
                Err(e) => e == Error::NotFound && !self@.keysets.contains_key(keyset_id@),
            },
    {
        let key = keyset_id.to_owned();
        match self.keysets.get(&key) {
            Some(info) => Ok(info.duplicate()),
            None => Err(Error::NotFound),
        }
    }

    /// Names the keyset that signs new tokens.
    pub fn set_active_keyset(&mut self, keyset_id: &str)
        requires
            old(self).wf(),
        ensures
            final(self).wf(),
            final(self)@ == (DbView { active_keyset: Some(keyset_id@), ..old(self)@ }),
    {
        self.active_keyset = Some(keyset_id.to_owned());
    }

    /// The id of the keyset that signs new tokens, once one was named.
    pub fn get_active_keyset(&self) -> (id: Option<String>)
        ensures
            match id {
                Some(text) => self@.active_keyset == Some(text@),
                None => self@.active_keyset is None,
            },
    {
        match &self.active_keyset {
            Some(id) => Some(id.clone()),
            None => None,
        }
    }

    pub fn set_last_pay_index(&mut self, last_pay_index: u64)
        requires
            old(self).wf(),
        ensures
            final(self).wf(),
            final(self)@ == (DbView { last_pay_index: Some(last_pay_index), ..old(self)@ }),
    {
        self.last_pay_index = Some(last_pay_index);
    }

    /// The stream position to go on from; zero where none was written.
    pub fn get_last_pay_index(&self) -> (index: u64)
        ensures
            index == self@.pay_index(),
    {
        match self.last_pay_index {
            Some(i) => i,
            None => 0,
        }
    }

    pub fn set_in_circulation(&mut self, amount: u64)
        requires
            old(self).wf(),
        ensures
            final(self).wf(),
            final(self)@ == (DbView { in_circulation: Some(amount), ..old(self)@ }),
    {
        self.in_circulation = Some(amount);
    }

    /// The amount in circulation; zero where none was written.
    pub fn get_in_circulation(&self) -> (amount: u64)
        ensures
            amount == self@.circulation(),
    {
        match self.in_circulation {
            Some(a) => a,
            None => 0,
        }
    }

    /// Writes the record under its hash, in place of what stood there, and
    /// points its payment hash at it in the same step.
    pub fn add_invoice(&mut self, invoice_info: &InvoiceInfo)
        requires
            old(self).wf(),
        ensures
            final(self).wf(),
            final(self)@ == (DbView {
                invoices: old(self)@.invoices.insert(invoice_info.hash@, invoice_info@),
                hashes: old(self)@.hashes.insert(invoice_info.payment_hash@, invoice_info.hash@),
                ..old(self)@
            }),
    {
        self.invoices.insert(invoice_info.hash.clone(), invoice_info.duplicate());
        self.hashes.insert(invoice_info.payment_hash.clone(), invoice_info.hash.clone());
        assert(self@.invoices =~= old(self)@.invoices.insert(invoice_info.hash@, invoice_info@));
        assert(self@.hashes =~= old(self)@.hashes.insert(
            invoice_info.payment_hash@,
            invoice_info.hash@,
        ));
    }

    /// The record that stands under `hash`.
    pub fn get_invoice_info(&self, hash: &str) -> (r: Result<InvoiceInfo, Error>)
        requires
            self.wf(),
        ensures
            match r {
                Ok(info) => self@.invoices.contains_key(hash@) && info@ == self@.invoices[hash@],
                Err(e) => e == Error::NotFound && !self@.invoices.contains_key(hash@),
            },
    {
        let key = hash.to_owned();
        match self.invoices.get(&key) {
            Some(info) => Ok(info.duplicate()),
            None => Err(Error::NotFound),
        }
    }

    /// The quote hash that `payment_hash` is mapped to.
    pub fn get_hash(&self, payment_hash: &str) -> (hash: Option<String>)
        requires
            self.wf(),
        ensures
            match hash {
                Some(h) => self@.hashes.contains_key(payment_hash@) && h@
                    == self@.hashes[payment_hash@],
                None => !self@.hashes.contains_key(payment_hash@),
            },
    {
        let key = payment_hash.to_owned();
        match self.hashes.get(&key) {
            Some(hash) => Some(hash.clone()),
            None => None,
        }
    }

    /// The record that `payment_hash` leads to. Fails where the hash mapping
    /// or the record it names is missing.
    pub fn get_invoice_info_by_payment_hash(&self, payment_hash: &str) -> (r: Result<
        InvoiceInfo,
        Error,
    >)
        requires
            self.wf(),
        ensures
            match r {
                Ok(info) => self@.by_payment_hash(payment_hash@) == Some(info@),
                Err(e) => e == Error::NotFound && self@.by_payment_hash(payment_hash@) is None,
            },
    {
        let key = payment_hash.to_owned();
        match self.hashes.get(&key) {
            Some(hash) => match self.invoices.get(hash) {
                Some(info) => Ok(info.duplicate()),
                None => Err(Error::NotFound),
            },
            None => Err(Error::NotFound),
        }
    }

    /// Writes each token under its secret.
    pub fn add_used_proofs(&mut self, proofs: &Vec<Proof>)
        requires
            old(self).wf(),
        ensures
            final(self).wf(),
            final(self)@ == (DbView {
                used_proofs: with_proofs(old(self)@.used_proofs, proof_views(proofs@)),
                ..old(self)@
            }),
    {
        let ghost views = proof_views(proofs@);
        let mut i: usize = 0;
        while i < proofs.len()
            invariant
                i <= proofs.len(),
                views == proof_views(proofs@),
                self.wf(),
                self@ == (DbView {
                    used_proofs: with_proofs(old(self)@.used_proofs, views.take(i as int)),
                    ..old(self)@
                }),
            decreases proofs.len() - i,
        {
            let ghost before = self@.used_proofs;
            self.used_proofs.insert(proofs[i].secret.clone(), proofs[i].duplicate());
            proof {
                assert(views[i as int] == proofs[i as int]@);
                assert(self@.used_proofs =~= before.insert(
                    proofs[i as int].secret@,
                    proofs[i as int]@,
                ));
                assert(views.take(i + 1).drop_last() =~= views.take(i as int));
                assert(views.take(i + 1).last() == views[i as int]);
            }
            i += 1;
        }
        assert(views.take(proofs.len() as int) =~= views);
    }

    /// Every secret that was redeemed, each once.
    pub fn get_spent_secrets(&self) -> (secrets: Vec<String>)
        requires
            self.wf(),
        ensures
            forall|i: int| 0 <= i < secrets.len() ==> self@.spent().contains((#[trigger] secrets[i])@),
            forall|s: Seq<char>|
                self@.spent().contains(s) ==> exists|i: int|
                    0 <= i < secrets.len() && (#[trigger] secrets[i])@ == s,
            forall|i: int, j: int|
                0 <= i < j < secrets.len() ==> (#[trigger] secrets[i])@ != (#[trigger] secrets[j])@,
    {
        let mut secrets: Vec<String> = Vec::new();
        let n = self.used_proofs.len();
        let mut i: usize = 0;
        proof {
            self.used_proofs.lemma_rows_are_view();
        }
        while i < n
            invariant
                i <= n,
                n == self.used_proofs.spec_len(),
                secrets.len() == i,
                forall|j: int| 0 <= j < i ==> (#[trigger] secrets[j])@ == self.used_proofs.key_at(j),
            decreases n - i,
        {
            let (secret, _) = self.used_proofs.row(i);
            secrets.push(secret.clone());
            i += 1;
        }
        proof {
            assert forall|s: Seq<char>| self@.spent().contains(s) implies exists|i: int|
                0 <= i < secrets.len() && (#[trigger] secrets[i])@ == s by {
                let j = choose|j: int|
                    0 <= j < self.used_proofs.spec_len() && #[trigger] self.used_proofs.key_at(j)
                        == s;
                assert(secrets[j]@ == s);
            }
            assert forall|i: int, j: int| 0 <= i < j < secrets.len() implies (
            #[trigger] secrets[i])@ != (#[trigger] secrets[j])@ by {
                assert(self.used_proofs.key_at(i) != self.used_proofs.key_at(j));
            }
        }
        secrets
    }

    /// Whether `secret` was redeemed.
    pub fn is_spent(&self, secret: &String) -> (spent: bool)
        ensures
            spent == self@.spent().contains(secret@),
    {
        self.used_proofs.contains_key(secret)
    }

    /// Every invoice record.
    pub fn get_all_invoices(&self) -> (all: Vec<InvoiceInfo>)
        requires
            self.wf(),
        ensures
            forall|i: int|
                0 <= i < all.len() ==> self@.invoices.contains_value((#[trigger] all[i])@),
            forall|h: Seq<char>|
                self@.invoices.contains_key(h) ==> exists|i: int|
                    0 <= i < all.len() && (#[trigger] all[i])@ == self@.invoices[h],
    {
        let mut all: Vec<InvoiceInfo> = Vec::new();
        let n = self.invoices.len();
        let mut i: usize = 0;
        proof {
            self.invoices.lemma_rows_are_view();
        }
        while i < n
            invariant
                i <= n,
                n == self.invoices.spec_len(),
                all.len() == i,
                forall|j: int| 0 <= j < i ==> (#[trigger] all[j]) == self.invoices.value_at(j),
            decreases n - i,
        {
            let (_, info) = self.invoices.row(i);
            all.push(info.duplicate());
            i += 1;
        }
        proof {
            assert forall|i: int| 0 <= i < all.len() implies self@.invoices.contains_value(
                (#[trigger] all[i])@,
            ) by {
                let k = self.invoices.key_at(i);
                assert(self@.invoices.contains_key(k) && self@.invoices[k] == all[i]@);
            }
            assert forall|h: Seq<char>| self@.invoices.contains_key(h) implies exists|i: int|
                0 <= i < all.len() && (#[trigger] all[i])@ == self@.invoices[h] by {
                let j = choose|j: int|
                    0 <= j < self.invoices.spec_len() && #[trigger] self.invoices.key_at(j) == h;
                assert(all[j]@ == self@.invoices[h]);
            }
        }
        all
    }

    /// Whether the record under `h` stands under its own hash, is led to by
    /// its payment hash, and has tokens issued only if it is paid.
    spec fn record_agrees(v: DbView, h: Seq<char>) -> bool {
        &&& v.invoices[h].hash == h
        &&& v.hashes.contains_key(v.invoices[h].payment_hash)
        &&& v.hashes[v.invoices[h].payment_hash] == h
        &&& (v.invoices[h].token_status == InvoiceTokenStatus::Issued ==> v.invoices[h].status
            == InvoiceStatus::Paid)
    }

    /// Whether the mapping of `p` leads to a record with this payment hash.
    spec fn mapping_agrees(v: DbView, p: Seq<char>) -> bool {
        &&& v.invoices.contains_key(v.hashes[p])
        &&& v.invoices[v.hashes[p]].payment_hash == p
    }

    /// Whether the tables agree with each other, as they do when every
    /// write to them was whole: the invoice table with the hash mapping, and
    /// the name of the keyset that signs with the keysets that are kept.
    pub fn check_consistent(&self) -> (ok: bool)
        requires
            self.wf(),
        ensures
            ok == self@.consistent(),
    {
        let signer_kept = match &self.active_keyset {
            Some(id) => self.keysets.contains_key(id),
            None => true,
        };
        if !signer_kept {
            return false;
        }
        let n = self.invoices.len();
        let mut i: usize = 0;
        while i < n
            invariant
                self.wf(),
                i <= n,
                n == self.invoices.spec_len(),
                forall|j: int|
                    0 <= j < i ==> Self::record_agrees(self@, #[trigger] self.invoices.key_at(j)),
            decreases n - i,
        {
            proof {
                self.invoices.lemma_rows_are_view();
            }
            let (key, info) = self.invoices.row(i);
            let led_to = match self.hashes.get(&info.payment_hash) {
                Some(h) => *h == *key,
                None => false,
            };
            let agrees = info.hash == *key && led_to && (info.token_status
                != InvoiceTokenStatus::Issued || info.status == InvoiceStatus::Paid);
            proof {
                assert(self@.invoices.contains_key(key@));
                assert(self@.invoices[key@] == info@);
                assert(agrees == Self::record_agrees(self@, key@));
            }
            if !agrees {
                return false;
            }
            i += 1;
        }
        let m = self.hashes.len();
        let mut k: usize = 0;
        while k < m
            invariant
                self.wf(),
                k <= m,
                m == self.hashes.spec_len(),
                forall|j: int|
                    0 <= j < k ==> Self::mapping_agrees(self@, #[trigger] self.hashes.key_at(j)),
            decreases m - k,
        {
            proof {
                self.hashes.lemma_rows_are_view();
            }
            let (payment_hash, hash) = self.hashes.row(k);
            let agrees = match self.invoices.get(hash) {
                Some(info) => info.payment_hash == *payment_hash,
                None => false,
            };
            proof {
                assert(self@.hashes.contains_key(payment_hash@));
                assert(self@.hashes[payment_hash@] == hash@);
                assert(agrees == Self::mapping_agrees(self@, payment_hash@));
            }
            if !agrees {
                return false;
            }
            k += 1;
        }
        proof {
            self.invoices.lemma_rows_are_view();
            self.hashes.lemma_rows_are_view();
            assert forall|h: Seq<char>| #[trigger]
                self@.invoices.contains_key(h) implies Self::record_agrees(self@, h) by {
                let j = choose|j: int|
                    0 <= j < self.invoices.spec_len() && #[trigger] self.invoices.key_at(j) == h;
                assert(Self::record_agrees(self@, self.invoices.key_at(j)));
            }
            assert forall|p: Seq<char>| #[trigger]
                self@.hashes.contains_key(p) implies Self::mapping_agrees(self@, p) by {
                let j = choose|j: int|
                    0 <= j < self.hashes.spec_len() && #[trigger] self.hashes.key_at(j) == p;
                assert(Self::mapping_agrees(self@, self.hashes.key_at(j)));
            }
        }
        true
    }
}

} // verus!
