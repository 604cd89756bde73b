//! The record type: one configured entity, and the notification body that a
//! hit on it produces.

use vstd::prelude::*;
use vstd::string::StringExecFns;

verus! {

/// One configured entity: an address-like key and what to show for it.
/// Immutable once constructed.
pub struct MemoAddress {
    pub address: String,
    pub label: String,
    pub chain: String,
    pub description: String,
}

/// The mathematical image of a record: its four fields as character
/// sequences.
#[verifier::ext_equal]
pub struct MemoView {
    pub address: Seq<char>,
    pub label: Seq<char>,
    pub chain: Seq<char>,
    pub description: Seq<char>,
}

impl View for MemoAddress {
    type V = MemoView;

    open spec fn view(&self) -> MemoView {
        MemoView {
            address: self.address@,
            label: self.label@,
            chain: self.chain@,
            description: self.description@,
        }
    }
}

/// The notification body for a record: `<label> in <chain>`, a line break,
/// then the description.
pub open spec fn msg_spec(m: MemoView) -> Seq<char> {
    m.label + " in "@ + m.chain + "\n"@ + m.description
}

/// Formats the notification body for one record.
pub fn get_msg_from_memo(memo: &MemoAddress) -> (r: String)
    ensures
        r@ == msg_spec(memo@),
{
    let mut r = memo.label.clone();
    r.append(" in ");
    r.append(memo.chain.as_str());
    r.append("\n");
    r.append(memo.description.as_str());
    r
}

} // verus!
