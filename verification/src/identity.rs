//! Session identities, and the issuer that gives none of them twice.

use vstd::prelude::*;
use crate::text::string_of;

verus! {

/// The identity of one peer session: 128 bits that its maker drew at random.
/// It never changes, and it keys all state kept for the peer.
#[derive(Clone, Copy, Debug, PartialEq, Eq, Hash, Structural)]
pub struct SessionIdentity {
    pub bits: u128,
}

/// The decimal digit for a value below ten.
pub open spec fn digit(v: nat) -> char {
    ((48 + v) as u8) as char
}

/// A number in decimal, without leading zeros.
pub open spec fn decimal(n: nat) -> Seq<char>
    decreases n,
{
    if n < 10 {
        seq![digit(n)]
    } else {
        decimal(n / 10).push(digit(n % 10))
    }
}

impl SessionIdentity {
    /// The identity with the given bits.
    pub fn from_bits(bits: u128) -> (id: SessionIdentity)
        ensures
            id.bits == bits,
    {
        SessionIdentity { bits }
    }

    /// The bits of this identity.
    pub fn to_bits(&self) -> (bits: u128)
        ensures
            bits == self.bits,
    {
        self.bits
    }

    /// The identity as text: its bits as a decimal number.
    pub fn to_text(&self) -> (text: String)
        ensures
            text@ == decimal(self.bits as nat),
    {
        let mut digits: Vec<char> = Vec::new();
        let mut rest: u128 = self.bits;
        proof {
            assert(decimal(rest as nat) + digits@ =~= decimal(rest as nat));
        }
        while rest >= 10
            invariant
                decimal(self.bits as nat) == decimal(rest as nat) + digits@,
            decreases rest,
        {
            let ghost before = digits@;
            let low: u8 = (rest % 10) as u8;
            digits.insert(0, (48 + low) as char);
            proof {
                let c = digit((rest % 10) as nat);
                assert(digits@ =~= seq![c] + before);
                assert(decimal(rest as nat) == decimal((rest / 10) as nat).push(c));
                assert(decimal((rest / 10) as nat).push(c) + before =~= decimal(
                    (rest / 10) as nat,
                ) + digits@);
            }
            rest = rest / 10;
        }
        let ghost before = digits@;
        digits.insert(0, (48 + rest as u8) as char);
        proof {
            assert(digits@ =~= decimal(rest as nat) + before);
        }
        string_of(&digits)
    }
}

/// The identity with the given bits.
pub open spec fn identity_of(bits: u128) -> SessionIdentity {
    SessionIdentity { bits }
}

/// The identities that were issued once one more was asked for, or `None`
/// if it was issued before.
pub open spec fn issued_with(issued: Set<SessionIdentity>, id: SessionIdentity) -> Option<
    Set<SessionIdentity>,
> {
    if issued.contains(id) {
        None
    } else {
        Some(issued.insert(id))
    }
}

/// The identities that are issued after a run of draws, each of which is
/// issued unless it was issued before.
pub open spec fn issued_after(issued: Set<SessionIdentity>, draws: Seq<u128>) -> Set<
    SessionIdentity,
>
    decreases draws.len(),
{
    if draws.len() == 0 {
        issued
    } else {
        issued_after(issued, draws.drop_last()).insert(identity_of(draws.last()))
    }
}

/// True when the draw at index `i` of a run is issued.
pub open spec fn issues(issued: Set<SessionIdentity>, draws: Seq<u128>, i: int) -> bool {
    &&& 0 <= i < draws.len()
    &&& issued_with(issued_after(issued, draws.take(i)), identity_of(draws[i])) is Some
}

/// What was drawn before stays issued.
pub proof fn lemma_draws_stay_issued(
    issued: Set<SessionIdentity>,
    draws: Seq<u128>,
    i: int,
    j: int,
)
    requires
        0 <= i < j <= draws.len(),
    ensures
        issued_after(issued, draws.take(j)).contains(identity_of(draws[i])),
    decreases j,
{
    let upto = draws.take(j);
    assert(upto.drop_last() =~= draws.take(j - 1));
    assert(upto.last() == draws[j - 1]);
    if i < j - 1 {
        lemma_draws_stay_issued(issued, draws, i, j - 1);
    }
}

/// An issuer gives no identity twice: of all the identities that it issues
/// in a run of draws, each is another.
pub proof fn lemma_issued_once(issued: Set<SessionIdentity>, draws: Seq<u128>, i: int, j: int)
    requires
        i < j,
        issues(issued, draws, i),
        issues(issued, draws, j),
    ensures
        identity_of(draws[i]) != identity_of(draws[j]),
{
    lemma_draws_stay_issued(issued, draws, i, j);
}

/// The maker of identities: it keeps every identity that it has issued and
/// issues none twice, whether the session it went to still lives or not.
pub struct IdentityIssuer {
    issued: Vec<SessionIdentity>,
}

impl View for IdentityIssuer {
    type V = Set<SessionIdentity>;

    closed spec fn view(&self) -> Set<SessionIdentity> {
        self.issued@.to_set()
    }
}

impl IdentityIssuer {
    /// An issuer that has issued nothing.
    pub fn new() -> (issuer: IdentityIssuer)
        ensures
            issuer@ == Set::<SessionIdentity>::empty(),
    {
        let issuer = IdentityIssuer { issued: Vec::new() };
        assert(issuer@ =~= Set::<SessionIdentity>::empty());
        issuer
    }

    /// True when the identity was issued.
    pub fn was_issued(&self, id: SessionIdentity) -> (r: bool)
        ensures
            r == self@.contains(id),
    {
        let mut i: usize = 0;
        while i < self.issued.len()
            invariant
                i <= self.issued.len(),
                forall|j: int| 0 <= j < i ==> self.issued@[j] != id,
            decreases self.issued.len() - i,
        {
            if self.issued[i] == id {
                return true;
            }
            i = i + 1;
        }
        false
    }

    /// Issues the identity with the given bits, which were drawn at random.
    /// It is refused exactly when it was issued before, and then nothing
    /// changes.
    pub fn issue(&mut self, bits: u128) -> (r: Option<SessionIdentity>)
        ensures
            match r {
                Some(id) => id == identity_of(bits) && issued_with(old(self)@, id) == Some(
                    final(self)@,
                ),
                None => issued_with(old(self)@, identity_of(bits)) is None && final(self)@ == old(
                    self,
                )@,
            },
    {
        let id = SessionIdentity::from_bits(bits);
        if self.was_issued(id) {
            return None;
        }
        let ghost before = self.issued@;
        self.issued.push(id);
        proof {
            before.lemma_push_to_set_commute(id);
        }
        Some(id)
    }
}

} // verus!
