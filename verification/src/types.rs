use vstd::prelude::*;

verus! {

/// Where a Lightning invoice stands, as the mint last saw it.
#[derive(Clone, Copy, Debug, PartialEq, Eq, Structural)]
pub enum InvoiceStatus {
    Unpaid,
    Paid,
    Expired,
    InFlight,
}

impl InvoiceStatus {
    /// The name of the status, as written in stored records.
    pub open spec fn name(self) -> Seq<char> {
        match self {
            InvoiceStatus::Paid => "Paid"@,
            InvoiceStatus::Unpaid => "Unpaid"@,
            InvoiceStatus::Expired => "Expired"@,
            InvoiceStatus::InFlight => "InFlight"@,
        }
    }

    pub fn to_string(&self) -> (s: String)
        ensures
            s@ == self.name(),
    {
        match self {
            InvoiceStatus::Paid => "Paid".to_owned(),
            InvoiceStatus::Unpaid => "Unpaid".to_owned(),
            InvoiceStatus::Expired => "Expired".to_owned(),
            InvoiceStatus::InFlight => "InFlight".to_owned(),
        }
    }
}

/// Whether tokens were handed out for a paid invoice.
#[derive(Clone, Copy, Debug, PartialEq, Eq, Structural)]
pub enum InvoiceTokenStatus {
    Issued,
    NotIssued,
}

/// What the mint keeps of one quote: the Lightning invoice behind it and how
/// far payment and issuance have come.
///
/// Hashes are held as lower-case hex text, the invoice as its BOLT11 text and
/// the amount in satoshi.
#[derive(Clone, Debug, PartialEq, Eq)]
pub struct InvoiceInfo {
    /// Payment hash of the Lightning invoice.
    pub payment_hash: String,
    /// Hash made by the mint, under which the client asks for the quote.
    pub hash: String,
    pub invoice: String,
    pub amount: u64,
    pub status: InvoiceStatus,
    pub token_status: InvoiceTokenStatus,
    pub memo: String,
    /// Unix seconds at which the payment was seen.
    pub confirmed_at: Option<u64>,
}

/// An [`InvoiceInfo`] as a plain value.
pub struct InvoiceView {
    pub payment_hash: Seq<char>,
    pub hash: Seq<char>,
    pub invoice: Seq<char>,
    pub amount: u64,
    pub status: InvoiceStatus,
    pub token_status: InvoiceTokenStatus,
    pub memo: Seq<char>,
    pub confirmed_at: Option<u64>,
}

impl View for InvoiceInfo {
    type V = InvoiceView;

    open spec fn view(&self) -> InvoiceView {
        InvoiceView {
            payment_hash: self.payment_hash@,
            hash: self.hash@,
            invoice: self.invoice@,
            amount: self.amount,
            status: self.status,
            token_status: self.token_status,
            memo: self.memo@,
            confirmed_at: self.confirmed_at,
        }
    }
}

impl InvoiceView {
    /// The record once its payment was seen at `now`. A paid record stays
    /// as it is, with the time of the first sighting.
    pub open spec fn paid(self, now: u64) -> InvoiceView {
        if self.status == InvoiceStatus::Paid {
            self
        } else {
            InvoiceView { status: InvoiceStatus::Paid, confirmed_at: Some(now), ..self }
        }
    }

    /// The record once the node was asked and answered `observed`. Only an
    /// unpaid invoice moves, and only to paid or expired.
    pub open spec fn probed(self, observed: InvoiceStatus) -> InvoiceView {
        if self.status == InvoiceStatus::Unpaid && (observed == InvoiceStatus::Paid || observed
            == InvoiceStatus::Expired) {
            InvoiceView { status: observed, ..self }
        } else {
            self
        }
    }

    /// The record once its tokens were handed out.
    pub open spec fn issued(self) -> InvoiceView {
        InvoiceView { token_status: InvoiceTokenStatus::Issued, ..self }
    }
}

impl InvoiceInfo {
    /// A record for a new invoice. No tokens have been issued for it.
    pub fn new(
        payment_hash: String,
        hash: String,
        invoice: String,
        amount: u64,
        status: InvoiceStatus,
        memo: &str,
        confirmed_at: Option<u64>,
    ) -> (info: Self)
        ensures
            info@ == (InvoiceView {
                payment_hash: payment_hash@,
                hash: hash@,
                invoice: invoice@,
                amount,
                status,
                token_status: InvoiceTokenStatus::NotIssued,
                memo: memo@,
                confirmed_at,
            }),
    {
        InvoiceInfo {
            payment_hash,
            hash,
            invoice,
            amount,
            status,
            token_status: InvoiceTokenStatus::NotIssued,
            memo: memo.to_owned(),
            confirmed_at,
        }
    }

    /// A second copy of the record.
    pub fn duplicate(&self) -> (copy: Self)
        ensures
            copy == *self,
    {
        InvoiceInfo {
            payment_hash: self.payment_hash.clone(),
            hash: self.hash.clone(),
            invoice: self.invoice.clone(),
            amount: self.amount,
            status: self.status,
            token_status: self.token_status,
            memo: self.memo.clone(),
            confirmed_at: self.confirmed_at,
        }
    }
}

/// What the mint keeps of one signing keyset. The keys themselves are made
/// again from `secret` and `derivation_path` when they are needed.
#[derive(Clone, Debug, PartialEq, Eq)]
pub struct KeysetInfo {
    pub id: String,
    /// Unix seconds from which the keyset signs.
    pub valid_from: u64,
    /// Unix seconds at which it stopped signing; unset while it is active.
    pub valid_to: Option<u64>,
    pub secret: String,
    pub derivation_path: String,
    /// The number of denominations.
    pub max_order: u8,
}

/// A [`KeysetInfo`] as a plain value.
pub struct KeysetView {
    pub id: Seq<char>,
    pub valid_from: u64,
    pub valid_to: Option<u64>,
    pub secret: Seq<char>,
    pub derivation_path: Seq<char>,
    pub max_order: u8,
}

impl View for KeysetInfo {
    type V = KeysetView;

    open spec fn view(&self) -> KeysetView {
        KeysetView {
            id: self.id@,
            valid_from: self.valid_from,
            valid_to: self.valid_to,
            secret: self.secret@,
            derivation_path: self.derivation_path@,
            max_order: self.max_order,
        }
    }
}

impl KeysetInfo {
    /// A second copy of the record.
    pub fn duplicate(&self) -> (copy: Self)
        ensures
            copy == *self,
    {
        KeysetInfo {
            id: self.id.clone(),
            valid_from: self.valid_from,
            valid_to: self.valid_to,
            secret: self.secret.clone(),
            derivation_path: self.derivation_path.clone(),
            max_order: self.max_order,
        }
    }
}

/// A token as the ledger sees it: what it is worth and the secret that may
/// be redeemed once. The signature and the keyset id are carried along as
/// text and never read here.
#[derive(Clone, Debug, PartialEq, Eq)]
pub struct Proof {
    pub amount: u64,
    pub secret: String,
    pub c: String,
    pub id: String,
}

/// A [`Proof`] as a plain value.
pub struct ProofView {
    pub amount: u64,
    pub secret: Seq<char>,
    pub c: Seq<char>,
    pub id: Seq<char>,
}

impl View for Proof {
    type V = ProofView;

    open spec fn view(&self) -> ProofView {
        ProofView { amount: self.amount, secret: self.secret@, c: self.c@, id: self.id@ }
    }
}

impl Proof {
    /// A second copy of the token.
    pub fn duplicate(&self) -> (copy: Self)
        ensures
            copy == *self,
    {
        Proof {
            amount: self.amount,
            secret: self.secret.clone(),
            c: self.c.clone(),
            id: self.id.clone(),
        }
    }
}

/// What a client gets for a mint quote: the hash to ask with, and the
/// invoice to pay.
#[derive(Clone, Debug, PartialEq, Eq)]
pub struct RequestMintResponse {
    pub hash: String,
    pub pr: String,
}

/// News from the Lightning side.
#[derive(Clone, Copy, Debug, PartialEq, Eq, Structural)]
pub enum LnMessage {
    PaymentReceived,
}

/// The Lightning node implementation behind the mint.
#[derive(Clone, Copy, Debug, PartialEq, Eq, Structural)]
pub enum LnBackend {
    Cln,
    Greenlight,
    Ldk,
}

impl Default for LnBackend {
    fn default() -> (backend: Self)
        ensures
            backend == LnBackend::Cln,
    {
        LnBackend::Cln
    }
}

} // verus!
