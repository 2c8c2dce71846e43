use vstd::prelude::*;

verus! {

/// A stored record: one payment transaction.
///
/// `id` is assigned once at creation and never reused; `created_at` is a
/// nanosecond timestamp fixed at creation; only `status` is ever mutated
/// afterwards, and only through the update operation.
pub struct Transaction {
    pub id: u64,
    pub phone_number: String,
    pub amount: u32,
    pub created_at: u64,
    pub status: String,
}

/// The mathematical value of a `Transaction`.
#[verifier::ext_equal]
pub ghost struct TransactionV {
    pub id: u64,
    pub phone_number: Seq<char>,
    pub amount: u32,
    pub created_at: u64,
    pub status: Seq<char>,
}

impl View for Transaction {
    type V = TransactionV;

    open spec fn view(&self) -> TransactionV {
        TransactionV {
            id: self.id,
            phone_number: self.phone_number@,
            amount: self.amount,
            created_at: self.created_at,
            status: self.status@,
        }
    }
}

impl PartialEq for Transaction {
    fn eq(&self, other: &Self) -> (r: bool) {
        let r = self.id == other.id && self.phone_number == other.phone_number
            && self.amount == other.amount && self.created_at == other.created_at
            && self.status == other.status;
        proof {
            if r {
                assert(self@ =~= other@);
            }
        }
        r
    }
}

impl vstd::std_specs::cmp::PartialEqSpecImpl for Transaction {
    open spec fn obeys_eq_spec() -> bool {
        true
    }

    open spec fn eq_spec(&self, other: &Transaction) -> bool {
        self@ == other@
    }
}

/// What a caller supplies to `create_transaction`.
pub struct TransactionPayload {
    pub phone_number: String,
    pub amount: u32,
}

/// The one error of the service: the looked-up identifier has no record.
#[derive(Debug)]
pub enum Error {
    NotFound { msg: String },
}

impl View for Error {
    type V = Seq<char>;

    open spec fn view(&self) -> Seq<char> {
        match self {
            Error::NotFound { msg } => msg@,
        }
    }
}

} // verus!
