use rand::Rng;
use vstd::prelude::*;

verus! {

/// The largest value of the random node number in a socket id.
pub const SOCKET_ID_PART_MAX: u64 = 10000000000;

/// The decimal digit character for `d`, which is below ten.
pub open spec fn digit_char(d: nat) -> char {
    if d == 0 { '0' } else if d == 1 { '1' } else if d == 2 { '2' } else if d == 3 { '3' }
    else if d == 4 { '4' } else if d == 5 { '5' } else if d == 6 { '6' } else if d == 7 { '7' }
    else if d == 8 { '8' } else { '9' }
}

/// The decimal text of `n`: its digits, most significant first, with no
/// leading zero (and `0` for zero).
pub open spec fn decimal(n: nat) -> Seq<char>
    decreases n,
{
    if n < 10 {
        seq![digit_char(n)]
    } else {
        decimal(n / 10).push(digit_char(n % 10))
    }
}

/// The text of the socket id made of `a` and `b`: both in decimal, joined by
/// a dot.
pub open spec fn socket_id_text(a: u64, b: u64) -> Seq<char> {
    decimal(a as nat) + seq!['.'] + decimal(b as nat)
}

proof fn lemma_decimal_len(n: nat)
    ensures
        decimal(n).len() >= 1,
        n >= 10 ==> decimal(n).len() >= 2,
    decreases n,
{
    if n >= 10 {
        lemma_decimal_len(n / 10);
    }
}

/// Different numbers have different decimal texts.
pub proof fn lemma_decimal_injective(n: nat, m: nat)
    requires
        decimal(n) == decimal(m),
    ensures
        n == m,
    decreases n,
{
    lemma_decimal_len(n);
    lemma_decimal_len(m);
    if n < 10 && m < 10 {
        assert(decimal(n)[0] == digit_char(n));
        assert(decimal(m)[0] == digit_char(m));
    } else if n >= 10 && m >= 10 {
        let dn = decimal(n);
        assert(dn.last() == digit_char(n % 10));
        assert(decimal(m).last() == digit_char(m % 10));
        assert(dn.drop_last() =~= decimal(n / 10));
        assert(decimal(m).drop_last() =~= decimal(m / 10));
        lemma_decimal_injective(n / 10, m / 10);
    }
}

/// Two socket ids with the same first number and different second numbers
/// differ.
pub proof fn lemma_socket_id_second_injective(a: u64, b1: u64, b2: u64)
    requires
        socket_id_text(a, b1) == socket_id_text(a, b2),
    ensures
        b1 == b2,
{
    let p = decimal(a as nat) + seq!['.'];
    assert(socket_id_text(a, b1).subrange(p.len() as int, socket_id_text(a, b1).len() as int)
        =~= decimal(b1 as nat));
    assert(socket_id_text(a, b2).subrange(p.len() as int, socket_id_text(a, b2).len() as int)
        =~= decimal(b2 as nat));
    lemma_decimal_injective(b1 as nat, b2 as nat);
}

/// Relies on rand's `thread_rng().gen_range(0..=max)`: a uniformly drawn
/// number between zero and `max`, both included. The range is never empty.
#[verifier::external_body]
fn random_up_to(max: u64) -> (r: u64)
    ensures
        r <= max,
{
    rand::thread_rng().gen_range(0..=max)
}

/// Relies on std's `ToString` through `Display` for `u64`: decimal digits
/// without padding or sign.
#[verifier::external_body]
fn decimal_text(n: u64) -> (r: String)
    ensures
        r@ == decimal(n as nat),
{
    n.to_string()
}

/// The socket id made of `a` and `b`: both in decimal, joined by a dot.
pub fn socket_id_of(a: u64, b: u64) -> (r: String)
    ensures
        r@ == socket_id_text(a, b),
{
    let mut r = decimal_text(a);
    r.append(".");
    let second = decimal_text(b);
    r.append(second.as_str());
    proof {
        reveal_strlit(".");
    }
    r
}

/// Hands out socket ids that are never repeated: a node number drawn at
/// random once, and a counter that goes up by one for each id.
pub struct SocketIdIssuer {
    node: u64,
    next: u64,
    issued: Ghost<Set<Seq<char>>>,
}

impl SocketIdIssuer {
    /// Every id handed out so far is made of the node number and a counter
    /// value below `next`.
    pub closed spec fn wf(&self) -> bool {
        &&& self.node <= SOCKET_ID_PART_MAX
        &&& forall|s: Seq<char>|
            #[trigger] self.issued@.contains(s) ==> exists|k: u64| k < self.next && s == socket_id_text(self.node, k)
    }

    /// The ids handed out so far.
    pub closed spec fn issued(&self) -> Set<Seq<char>> {
        self.issued@
    }

    /// Whether the counter has run out, so that no further id can be handed out.
    pub closed spec fn exhausted(&self) -> bool {
        self.next == u64::MAX
    }

    /// A fresh issuer, with a random node number, that has handed out nothing.
    pub fn new() -> (r: Self)
        ensures
            r.wf(),
            r.issued() == Set::<Seq<char>>::empty(),
            !r.exhausted(),
    {
        SocketIdIssuer { node: random_up_to(SOCKET_ID_PART_MAX), next: 0, issued: Ghost(Set::empty()) }
    }

    /// A socket id that was never handed out before: the node number and the
    /// counter, in decimal, joined by a dot. Nothing, once the counter has
    /// run out.
    pub fn generate_socket_id(&mut self) -> (r: Option<String>)
        requires
            old(self).wf(),
        ensures
            final(self).wf(),
            r is Some <==> !old(self).exhausted(),
            r matches Some(s) ==> !old(self).issued().contains(s@) && final(self).issued() == old(
                self,
            ).issued().insert(s@) && exists|a: u64, b: u64| a <= SOCKET_ID_PART_MAX && s@ == socket_id_text(a, b),
            r is None ==> final(self).issued() == old(self).issued() && final(self).exhausted(),
    {
        if self.next == u64::MAX {
            return None;
        }
        let id = socket_id_of(self.node, self.next);
        proof {
            if self.issued@.contains(id@) {
                let k = choose|k: u64| k < self.next && id@ == socket_id_text(self.node, k);
                lemma_socket_id_second_injective(self.node, k, self.next);
            }
        }
        let ghost pre = self.issued@;
        self.issued = Ghost(pre.insert(id@));
        let ghost n = self.next;
        self.next = self.next + 1;
        assert forall|s: Seq<char>|
            #[trigger] self.issued@.contains(s) implies exists|k: u64| k < self.next && s == socket_id_text(self.node, k) by {
            if s == id@ {
                assert(n < self.next && s == socket_id_text(self.node, n));
            } else {
                assert(pre.contains(s));
            }
        }
        Some(id)
    }
}

} // verus!
