//! Laws of the bracket depth assignment, and of the end of the stream.

use vstd::prelude::*;

use crate::lexer::{next_token_post, Lexer};
use crate::token::{LexerError, TokenType};

verus! {

/// One bracket of a single kind, as the balance tracker sees it.
#[derive(Clone, Copy, Debug, PartialEq, Eq, Structural)]
pub enum BracketEvent {
    Open,
    Close,
}

/// Opens minus closes among the first `n` events: the open count the
/// tracker holds for this kind after processing them, starting from a
/// fresh lexer.
pub open spec fn net_depth(s: Seq<BracketEvent>, n: int) -> int
    decreases n,
{
    if n <= 0 {
        0
    } else {
        net_depth(s, n - 1) + if s[n - 1] is Open {
            1int
        } else {
            -1int
        }
    }
}

/// A sequence is well nested so far when no prefix closes more brackets
/// of the kind than it has opened.
pub open spec fn well_nested_so_far(s: Seq<BracketEvent>) -> bool {
    forall|n: int| 0 <= n <= s.len() ==> net_depth(s, n) >= 0
}

/// The depth assigned to the event at index `k`: an open is reported at
/// the count before the increment, a close at the count after the
/// decrement.
pub open spec fn assigned_depth(s: Seq<BracketEvent>, k: int) -> int
    recommends
        0 <= k < s.len(),
{
    if s[k] is Open {
        net_depth(s, k)
    } else {
        net_depth(s, k + 1)
    }
}

/// In a sequence of same-kind brackets that is well nested so far, every
/// depth the tracker assigns — to opens and closes alike — is
/// non-negative.
pub proof fn lemma_depths_nonnegative(s: Seq<BracketEvent>)
    requires
        well_nested_so_far(s),
    ensures
        forall|k: int| 0 <= k < s.len() ==> assigned_depth(s, k) >= 0,
{
    assert forall|k: int| 0 <= k < s.len() implies assigned_depth(s, k) >= 0 by {
        assert(net_depth(s, k) >= 0);
        assert(net_depth(s, k + 1) >= 0);
    }
}

/// Between an open and the first return of the net depth to its level,
/// the run stays strictly deeper than that level.
proof fn lemma_stays_above(s: Seq<BracketEvent>, i: int, j: int, k: int)
    requires
        0 <= i < j < s.len(),
        s[i] is Open,
        forall|l: int| i < l <= j ==> net_depth(s, l) != net_depth(s, i),
        i < k <= j,
    ensures
        net_depth(s, k) > net_depth(s, i),
    decreases k,
{
    if k == i + 1 {
        assert(net_depth(s, i + 1) == net_depth(s, i) + 1);
    } else {
        lemma_stays_above(s, i, j, k - 1);
        assert(net_depth(s, k) >= net_depth(s, k - 1) - 1);
    }
}

/// The close that pairs with an open is the first later event at which
/// the net depth returns to its level before the open. That event is
/// indeed a close, the events strictly between the two stay deeper, and
/// the close is assigned the very depth the open was assigned: a
/// consumer can pair opens and closes by depth value alone, without a
/// stack of its own.
pub proof fn lemma_matching_close_depth(s: Seq<BracketEvent>, i: int, j: int)
    requires
        0 <= i < j < s.len(),
        s[i] is Open,
        net_depth(s, j + 1) == net_depth(s, i),
        forall|l: int| i < l <= j ==> net_depth(s, l) != net_depth(s, i),
    ensures
        s[j] is Close,
        assigned_depth(s, j) == assigned_depth(s, i),
        forall|l: int| i < l <= j ==> net_depth(s, l) > net_depth(s, i),
{
    assert forall|l: int| i < l <= j implies net_depth(s, l) > net_depth(s, i) by {
        lemma_stays_above(s, i, j, l);
    }
    lemma_stays_above(s, i, j, j);
    assert(net_depth(s, j + 1) == net_depth(s, j) + if s[j] is Open {
        1int
    } else {
        -1int
    });
}

/// A tracker count that has followed `net_depth` keeps following it over
/// one more same-kind bracket, and the depth reported for that bracket —
/// the count before the increment for an open, the count after the
/// decrement for a close, exactly as the balance tracker reports them —
/// equals `assigned_depth`. Together with the two lemmas above, the
/// depths a whole stream of same-kind bracket tokens carries are the
/// assigned depths: non-negative while the stream stays well nested, and
/// equal on every matching open and close.
pub proof fn lemma_tracker_follows_net_depth(
    s: Seq<BracketEvent>,
    n: int,
    count: int,
    reported: int,
    count_after: int,
)
    requires
        0 <= n < s.len(),
        count == net_depth(s, n),
        s[n] is Open ==> reported == count && count_after == count + 1,
        s[n] is Close ==> reported == count - 1 && count_after == count - 1,
    ensures
        reported == assigned_depth(s, n),
        count_after == net_depth(s, n + 1),
{
}

/// Once the end of the stream has been reached, the contract of
/// `next_token` forces the end-of-stream token — never an error — and
/// leaves the cursor at the end again, so every later call is forced to
/// the same answer: the sentinel is idempotent.
pub proof fn lemma_end_of_stream_idempotent(
    pre: Lexer,
    post: Lexer,
    r: Result<TokenType, LexerError>,
)
    requires
        pre.cursor() == pre.text().len(),
        next_token_post(pre, post, r),
    ensures
        r matches Ok(TokenType::EndOfStream),
        post.text() == pre.text(),
        post.cursor() == post.text().len(),
        post.counts() == pre.counts(),
{
}

} // verus!
