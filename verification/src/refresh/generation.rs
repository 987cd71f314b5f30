//! Identities that pair displayed rows and the hub's contents with the refresh
//! that produced them.
use vstd::prelude::*;
use vstd::string::*;
use crate::text::{
    all_digits, decimal, decimal_text, digit, is_digit, law_decimal_is_injective,
    law_decimal_reads_back, same_text,
};

verus! {

/// The refresh, counted within one process, whose prefix map attributed a row.
#[derive(Debug, Clone, Copy, PartialEq, Eq, Hash, Structural)]
pub struct AttributionGeneration(u64);

impl View for AttributionGeneration {
    type V = nat;

    closed spec fn view(&self) -> nat {
        self.0 as nat
    }
}

/// The number of an optional generation.
pub open spec fn opt_generation(o: Option<AttributionGeneration>) -> Option<nat> {
    match o {
        Some(g) => Some(g@),
        None => None,
    }
}

impl AttributionGeneration {
    /// The generation with this number.
    pub fn new(value: u64) -> (res: AttributionGeneration)
        ensures
            res@ == value,
    {
        AttributionGeneration(value)
    }

    /// The number of the generation.
    pub fn value(&self) -> (res: u64)
        ensures
            res == self@,
    {
        self.0
    }
}

/// A token that is published beside the hub, so that every process can tell
/// whether the hub still holds what it last synced.
#[derive(Debug, PartialEq, Eq)]
pub struct HubGenerationToken {
    value: String,
}

impl View for HubGenerationToken {
    type V = Seq<char>;

    closed spec fn view(&self) -> Seq<char> {
        self.value@
    }
}

impl Clone for HubGenerationToken {
    fn clone(&self) -> (res: HubGenerationToken)
        ensures
            res@ == self@,
    {
        HubGenerationToken { value: self.value.clone() }
    }
}

/// The token of a process, a time and a count within the process.
pub open spec fn token_text(process: nat, nanos: nat, count: nat) -> Seq<char> {
    decimal(process) + seq!['-'] + decimal(nanos) + seq!['-'] + decimal(count)
}

impl HubGenerationToken {
    /// The token with this text.
    pub fn new(value: String) -> (res: HubGenerationToken)
        ensures
            res@ == value@,
    {
        HubGenerationToken { value }
    }

    /// The text of the token.
    pub fn as_str(&self) -> (res: &str)
        ensures
            res@ == self@,
    {
        self.value.as_str()
    }

    /// Whether two tokens are the same.
    pub fn same(&self, other: &HubGenerationToken) -> (res: bool)
        ensures
            res == (self@ == other@),
    {
        same_text(self.value.as_str(), other.value.as_str())
    }

    /// The token for a process id, the time since the epoch, and a count that
    /// goes up with each token of the process.
    pub fn fresh(process: u32, since_epoch_nanos: u128, count: u64) -> (res: HubGenerationToken)
        ensures
            res@ == token_text(process as nat, since_epoch_nanos as nat, count as nat),
    {
        let mut value = decimal_text(process as u64);
        value.push('-');
        let nanos = wide_decimal_text(since_epoch_nanos);
        value.append(nanos.as_str());
        value.push('-');
        let digits = decimal_text(count);
        value.append(digits.as_str());
        assert(value@ =~= token_text(process as nat, since_epoch_nanos as nat, count as nat));
        HubGenerationToken { value }
    }
}

/// Writes a wide number in decimal.
fn wide_decimal_text(n: u128) -> (s: String)
    ensures
        s@ == decimal(n as nat),
    decreases n,
{
    if n <= 0xffff_ffff_ffff_ffff {
        decimal_text(n as u64)
    } else {
        let mut s = wide_decimal_text(n / 10);
        let last = decimal_text((n % 10) as u64);
        assert(last@ =~= seq![digit((n % 10) as int)]);
        s.append(last.as_str());
        assert(s@ =~= decimal(n as nat));
        s
    }
}

proof fn lemma_split_at_dash(a: Seq<char>, x: Seq<char>, b: Seq<char>, y: Seq<char>)
    requires
        all_digits(a),
        all_digits(b),
        a + seq!['-'] + x == b + seq!['-'] + y,
    ensures
        a == b,
        x == y,
{
    let l = a + seq!['-'] + x;
    let r = b + seq!['-'] + y;
    if a.len() < b.len() {
        assert(l[a.len() as int] == '-');
        assert(r[a.len() as int] == b[a.len() as int]);
        assert(is_digit(b[a.len() as int]));
    }
    if b.len() < a.len() {
        assert(r[b.len() as int] == '-');
        assert(l[b.len() as int] == a[b.len() as int]);
        assert(is_digit(a[b.len() as int]));
    }
    assert forall|i: int| 0 <= i < a.len() implies a[i] == b[i] by {
        assert(l[i] == a[i]);
        assert(r[i] == b[i]);
    }
    assert(a =~= b);
    assert(l.len() == a.len() + 1 + x.len());
    assert(r.len() == b.len() + 1 + y.len());
    assert forall|i: int| 0 <= i < x.len() implies x[i] == y[i] by {
        assert(l[a.len() + 1 + i] == x[i]);
        assert(r[b.len() + 1 + i] == y[i]);
    }
    assert(x =~= y);
}

/// Two tokens made of a process id, a time and a count are the same only where
/// all three are.
pub proof fn law_fresh_tokens_are_distinct(p: nat, t: nat, c: nat, q: nat, u: nat, d: nat)
    requires
        token_text(p, t, c) == token_text(q, u, d),
    ensures
        p == q,
        t == u,
        c == d,
{
    law_decimal_reads_back(p);
    law_decimal_reads_back(q);
    law_decimal_reads_back(t);
    law_decimal_reads_back(u);
    let x = decimal(t) + seq!['-'] + decimal(c);
    let y = decimal(u) + seq!['-'] + decimal(d);
    assert(token_text(p, t, c) =~= decimal(p) + seq!['-'] + x);
    assert(token_text(q, u, d) =~= decimal(q) + seq!['-'] + y);
    lemma_split_at_dash(decimal(p), x, decimal(q), y);
    lemma_split_at_dash(decimal(t), decimal(c), decimal(u), decimal(d));
    law_decimal_is_injective(p, q);
    law_decimal_is_injective(t, u);
    law_decimal_is_injective(c, d);
}

} // verus!
