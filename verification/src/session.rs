//! The session under which searches are sent, so that a later one can refer to an earlier one.

use vstd::prelude::*;

use crate::json::opt_text;
use crate::text::cat;
use crate::text::digit;
use crate::text::lemma_numeral_digits;
use crate::text::numeral;
use crate::text::write_number;

verus! {

/// The current session; none before the first search.
pub struct Session {
    pub id: Option<String>,
}

impl View for Session {
    type V = Option<Seq<char>>;

    open spec fn view(&self) -> Option<Seq<char>> {
        opt_text(self.id)
    }
}

impl Session {
    /// No session yet.
    pub fn new() -> (r: Session)
        ensures
            r@ is None,
    {
        Session { id: None }
    }
}

/// An identifier made of a time: the number of nanoseconds since the epoch, in hexadecimal.
pub fn nanoid(nanos: u128) -> (r: String)
    ensures
        r@ == numeral(nanos as nat, 16),
{
    write_number(nanos, 16)
}

/// The identifier of a session: the one that it has, else one made of the time.
pub open spec fn id_at(session: Option<Seq<char>>, nanos: nat) -> Seq<char> {
    match session {
        Some(id) => id,
        None => "ccs_"@ + numeral(nanos, 16),
    }
}

/// The identifier of the current session. A session that has none yet gets one, and keeps it.
pub fn session_id(session: &mut Session, nanos: u128) -> (r: String)
    ensures
        r@ == id_at(old(session)@, nanos as nat),
        final(session)@ == Some(r@),
{
    let id = match &session.id {
        Some(id) => id.clone(),
        None => cat("ccs_", nanoid(nanos).as_str()),
    };
    session.id = Some(id.clone());
    id
}

// ---------------------------------------------------------------------------
// Laws
// ---------------------------------------------------------------------------
/// A session keeps its identifier: asked again at any later time, it gives the same.
pub proof fn lemma_session_kept(session: Option<Seq<char>>, nanos: nat, later: nat)
    ensures
        id_at(Some(id_at(session, nanos)), later) == id_at(session, nanos),
{
}

/// The number that some digits stand for.
pub open spec fn value_of(digits: Seq<char>, base: nat) -> nat
    decreases digits.len(),
{
    if digits.len() == 0 {
        0
    } else {
        value_of(digits.drop_last(), base) * base + digit_value(digits.last())
    }
}

/// The number that a digit stands for.
pub open spec fn digit_value(c: char) -> nat {
    if '0' <= c <= '9' {
        (c as nat - '0' as nat) as nat
    } else {
        (c as nat - 'a' as nat + 10) as nat
    }
}

/// A number can be read back from its digits.
pub proof fn lemma_numeral_value(n: nat, base: nat)
    requires
        2 <= base <= 16,
    ensures
        value_of(numeral(n, base), base) == n,
    decreases n,
{
    reveal_strlit("0123456789abcdef");
    let last = n % base;
    assert(0 <= last < base) by (nonlinear_arith)
        requires
            base >= 2,
            last == n % base,
    ;
    assert(digit_value(digit(last)) == last);
    if n < base {
        assert(n % base == n) by (nonlinear_arith)
            requires
                n < base,
        ;
        reveal_with_fuel(value_of, 2);
        assert(numeral(n, base).drop_last() =~= Seq::<char>::empty());
        assert(value_of(numeral(n, base), base) == 0 * base + digit_value(digit(n)));
        assert(0 * base == 0) by (nonlinear_arith);
    } else {
        vstd::arithmetic::div_mod::lemma_div_decreases(n as int, base as int);
        lemma_numeral_value(n / base, base);
        assert(numeral(n, base).drop_last() =~= numeral(n / base, base));
        vstd::arithmetic::div_mod::lemma_fundamental_div_mod(n as int, base as int);
        assert((n / base) * base + n % base == n) by (nonlinear_arith)
            requires
                n == base * (n / base) + n % base,
        ;
    }
}

/// Identifiers made of different times are different.
pub proof fn lemma_ids_differ(nanos: nat, other: nat)
    requires
        nanos != other,
    ensures
        numeral(nanos, 16) != numeral(other, 16),
        id_at(None, nanos) != id_at(None, other),
{
    lemma_numeral_value(nanos, 16);
    lemma_numeral_value(other, 16);
    let a = "ccs_"@ + numeral(nanos, 16);
    let b = "ccs_"@ + numeral(other, 16);
    assert(a.skip("ccs_"@.len() as int) =~= numeral(nanos, 16));
    assert(b.skip("ccs_"@.len() as int) =~= numeral(other, 16));
}

/// A session that has an identifier gives it, letter for letter; one that has none takes the
/// prefix and the time in hexadecimal, from which the time can be read back.
pub proof fn lemma_session_identifier(id: Seq<char>, nanos: nat)
    ensures
        id_at(Some(id), nanos) == id,
        id_at(None, nanos).len() > 4,
        id_at(None, nanos).subrange(0, 4) == seq!['c', 'c', 's', '_'],
        value_of(id_at(None, nanos).skip(4), 16) == nanos,
        id_at(None, nanos).skip(4) == numeral(nanos, 16),
{
    reveal_strlit("ccs_");
    lemma_numeral_value(nanos, 16);
    lemma_numeral_digits(nanos, 16);
    let made = id_at(None, nanos);
    assert(made.subrange(0, 4) =~= seq!['c', 'c', 's', '_']);
    assert(made.skip(4) =~= numeral(nanos, 16));
}

} // verus!
