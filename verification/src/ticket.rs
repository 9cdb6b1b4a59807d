//! Tickets that tell one background job from another.
//!
//! A job that is started draws the next ticket, and its result comes back with
//! it. A result whose ticket is not the latest belongs to a job that was given
//! up.

use vstd::prelude::*;

verus! {

/// The ticket that is drawn `n` draws after `first`. Numbers start over after
/// two to the power of 64 draws.
pub open spec fn ticket_after(first: u64, n: nat) -> u64 {
    ((first + n) % 0x1_0000_0000_0000_0000) as u64
}

/// Draws the ticket after `last`.
pub fn next_ticket(last: u64) -> (r: u64)
    ensures
        r == ticket_after(last, 1),
        last < u64::MAX ==> r == last + 1,
        last == u64::MAX ==> r == 0,
{
    if last == u64::MAX {
        0
    } else {
        last + 1
    }
}

/// Between place `n` and the next, a ticket was drawn or not.
pub open spec fn goes_on(tickets: Seq<u64>, n: int) -> bool {
    tickets[n + 1] == tickets[n] || tickets[n + 1] == ticket_after(tickets[n], 1)
}

/// Between any two neighbours, a ticket was drawn or not.
pub open spec fn is_run(tickets: Seq<u64>) -> bool {
    forall|n: int| 0 <= n < tickets.len() - 1 ==> #[trigger] goes_on(tickets, n)
}

proof fn lemma_after(first: u64, a: nat, b: nat)
    ensures
        ticket_after(ticket_after(first, a), b) == ticket_after(first, a + b),
        0 < a < 0x1_0000_0000_0000_0000 ==> ticket_after(first, a) != first,
{
    vstd::arithmetic::div_mod::lemma_add_mod_noop(first + a, b as int, 0x1_0000_0000_0000_0000);
    vstd::arithmetic::div_mod::lemma_add_mod_noop(
        ((first + a) % 0x1_0000_0000_0000_0000) as int,
        b as int,
        0x1_0000_0000_0000_0000,
    );
}

proof fn lemma_draws(tickets: Seq<u64>, i: int, k: int) -> (n: nat)
    requires
        is_run(tickets),
        0 <= i <= k < tickets.len(),
    ensures
        n <= k - i,
        tickets[k] == ticket_after(tickets[i], n),
    decreases k - i,
{
    if i == k {
        0
    } else {
        let n = lemma_draws(tickets, i, k - 1);
        assert(goes_on(tickets, k - 1));
        lemma_after(tickets[i], n, 1);
        if tickets[k] == tickets[k - 1] {
            n
        } else {
            n + 1
        }
    }
}

/// Once another ticket was drawn, an earlier one is not the latest again within
/// two to the power of 64 steps.
pub proof fn a_ticket_does_not_come_again(tickets: Seq<u64>, i: int, j: int, k: int)
    requires
        is_run(tickets),
        tickets.len() <= 0x1_0000_0000_0000_0000,
        0 <= i <= j < k < tickets.len(),
        tickets[j + 1] == ticket_after(tickets[j], 1),
    ensures
        tickets[k] != tickets[i],
{
    let a = lemma_draws(tickets, i, j);
    let b = lemma_draws(tickets, j + 1, k);
    lemma_after(tickets[i], a, 1);
    lemma_after(tickets[i], a + 1, b);
    lemma_after(tickets[i], a + 1 + b, 0);
}

} // verus!
