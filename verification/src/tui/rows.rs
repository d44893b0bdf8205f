//! The lines of a session's detail list.

use vstd::prelude::*;

use crate::order;
use crate::parser::session::CodexSession;
use crate::parser::turn::CodexTurn;

verus! {

/// One selectable line in a session's detail list. Turn headers, the user message, agent
/// messages, and tool calls are interleaved in stream order.
#[derive(Debug, Clone, Copy, PartialEq, Eq, Structural)]
pub enum Row {
    TurnHeader(usize),
    UserMessage(usize),
    Agent(usize, usize),
    Tool(usize, usize),
}

impl DeepView for Row {
    type V = Row;

    open spec fn deep_view(&self) -> Row {
        *self
    }
}

/// The agent messages of a turn with their positions in the stream.
pub open spec fn ranked_messages(turn: CodexTurn, t: usize) -> Seq<(i128, Row)> {
    Seq::new(
        turn.agent_messages@.len(),
        |m: int| (turn.agent_messages@[m].order as i128, Row::Agent(t, m as usize)),
    )
}

/// The tool calls of a turn with their positions in the stream.
pub open spec fn ranked_tools(turn: CodexTurn, t: usize) -> Seq<(i128, Row)> {
    Seq::new(
        turn.tool_call_orders@.len(),
        |c: int| (turn.tool_call_orders@[c] as i128, Row::Tool(t, c as usize)),
    )
}

/// The rows of what happened in a turn, in stream order; of a message and a tool call at the
/// same position the message comes first.
pub open spec fn stream_rows(turn: CodexTurn, t: usize) -> Seq<Row> {
    order::unranked(order::sorted(ranked_messages(turn, t) + ranked_tools(turn, t)))
}

/// The rows of a turn: its header, the user's message, if any, and what happened then.
pub open spec fn turn_rows(turn: CodexTurn, t: usize) -> Seq<Row> {
    let opening = if turn.user_message is Some {
        seq![Row::TurnHeader(t), Row::UserMessage(t)]
    } else {
        seq![Row::TurnHeader(t)]
    };
    opening + stream_rows(turn, t)
}

/// The rows of some turns.
pub open spec fn session_rows(turns: Seq<CodexTurn>) -> Seq<Row>
    decreases turns.len(),
{
    if turns.len() == 0 {
        seq![]
    } else {
        session_rows(turns.drop_last()) + turn_rows(turns.last(), (turns.len() - 1) as usize)
    }
}

fn push_stream_rows(rows: &mut Vec<Row>, turn: &CodexTurn, t: usize)
    ensures
        final(rows)@ == old(rows)@ + stream_rows(*turn, t),
{
    let ghost messages = ranked_messages(*turn, t);
    let ghost tools = ranked_tools(*turn, t);
    let ghost all = messages + tools;
    let mut combined: Vec<(i128, Row)> = Vec::new();
    let n = turn.agent_messages.len();
    let mut m: usize = 0;
    assert(combined.deep_view() =~= order::sorted(all.take(0)));
    while m < n
        invariant
            m <= n == turn.agent_messages@.len(),
            messages == ranked_messages(*turn, t),
            tools == ranked_tools(*turn, t),
            all == messages + tools,
            combined.deep_view() == order::sorted(all.take(m as int)),
        decreases n - m,
    {
        proof {
            assert(all.take(m + 1).drop_last() =~= all.take(m as int));
            assert(all[m as int] == messages[m as int]);
        }
        order::insert_ranked(&mut combined, turn.agent_messages[m].order as i128, Row::Agent(t, m));
        m += 1;
    }
    let k = turn.tool_call_orders.len();
    let mut c: usize = 0;
    while c < k
        invariant
            n == turn.agent_messages@.len(),
            c <= k == turn.tool_call_orders@.len(),
            messages == ranked_messages(*turn, t),
            tools == ranked_tools(*turn, t),
            all == messages + tools,
            combined.deep_view() == order::sorted(all.take(n + c)),
        decreases k - c,
    {
        proof {
            assert(all.take(n + c + 1).drop_last() =~= all.take(n + c));
            assert(all[n + c] == tools[c as int]);
        }
        order::insert_ranked(&mut combined, turn.tool_call_orders[c] as i128, Row::Tool(t, c));
        c += 1;
    }
    assert(all.take(n + k) =~= all);
    let ghost before = rows@;
    let ghost sorted = combined.deep_view();
    let mut i: usize = 0;
    while i < combined.len()
        invariant
            i <= combined@.len(),
            sorted == combined.deep_view(),
            rows@ == before + order::unranked(sorted).take(i as int),
        decreases combined@.len() - i,
    {
        assert(sorted[i as int].1 == combined@[i as int].1);
        rows.push(combined[i].1);
        assert(order::unranked(sorted).take(i + 1) =~= order::unranked(sorted).take(i as int).push(
            sorted[i as int].1,
        ));
        i += 1;
    }
    assert(order::unranked(sorted).take(i as int) =~= order::unranked(sorted));
}

/// Flatten a session's turns into a linear list of rows, interleaving agent messages and tool
/// calls by their original stream order so the list reads the way the conversation actually
/// happened.
pub fn build_rows(session: &CodexSession) -> (r: Vec<Row>)
    ensures
        r@ == session_rows(session.turns@),
{
    let ghost turns = session.turns@;
    let n = session.turns.len();
    let mut rows: Vec<Row> = Vec::new();
    let mut t: usize = 0;
    assert(rows@ =~= session_rows(turns.take(0)));
    while t < n
        invariant
            t <= n == session.turns@.len(),
            turns == session.turns@,
            rows@ == session_rows(turns.take(t as int)),
        decreases n - t,
    {
        let ghost before = rows@;
        let turn = &session.turns[t];
        assert(turns.take(t + 1).drop_last() =~= turns.take(t as int));
        rows.push(Row::TurnHeader(t));
        if turn.user_message.is_some() {
            rows.push(Row::UserMessage(t));
        }
        push_stream_rows(&mut rows, turn, t);
        assert(rows@ =~= before + turn_rows(*turn, t));
        t += 1;
    }
    assert(turns.take(t as int) =~= turns);
    rows
}

/// Whether a row points to something in a session.
pub open spec fn row_exists(turns: Seq<CodexTurn>, row: Row) -> bool {
    match row {
        Row::TurnHeader(t) => t < turns.len(),
        Row::UserMessage(t) => t < turns.len() && turns[t as int].user_message is Some,
        Row::Agent(t, m) => t < turns.len() && m < turns[t as int].agent_messages@.len(),
        Row::Tool(t, c) => t < turns.len() && c < turns[t as int].tool_call_orders@.len(),
    }
}

/// The turn that a row belongs to.
pub open spec fn turn_of(row: Row) -> usize {
    match row {
        Row::TurnHeader(t) => t,
        Row::UserMessage(t) => t,
        Row::Agent(t, _) => t,
        Row::Tool(t, _) => t,
    }
}

proof fn lemma_stream_row(turn: CodexTurn, t: usize, k: int)
    requires
        0 <= k < stream_rows(turn, t).len(),
        turn.agent_messages@.len() <= usize::MAX,
        turn.tool_call_orders@.len() <= usize::MAX,
    ensures
        match stream_rows(turn, t)[k] {
            Row::Agent(u, m) => u == t && m < turn.agent_messages@.len(),
            Row::Tool(u, c) => u == t && c < turn.tool_call_orders@.len(),
            _ => false,
        },
{
    let items = ranked_messages(turn, t) + ranked_tools(turn, t);
    order::sorting_ascends(items);
    order::sorting_invents_nothing(items, k);
    let x = order::sorted(items)[k];
    let i = choose|i: int| 0 <= i < items.len() && items[i] == x;
    let n = turn.agent_messages@.len();
    if i < n {
        assert(items[i] == ranked_messages(turn, t)[i]);
    } else {
        assert(items[i] == ranked_tools(turn, t)[i - n]);
    }
}

/// Whether the lists of some turns have lengths that a machine can hold.
pub open spec fn sizes_fit(turns: Seq<CodexTurn>) -> bool {
    &&& turns.len() <= usize::MAX
    &&& forall|t: int|
        #![trigger turns[t]]
        0 <= t < turns.len() ==> turns[t].agent_messages@.len() <= usize::MAX
            && turns[t].tool_call_orders@.len() <= usize::MAX
}

/// Every row points to something in the session.
pub proof fn rows_exist(turns: Seq<CodexTurn>, k: int)
    requires
        sizes_fit(turns),
        0 <= k < session_rows(turns).len(),
    ensures
        row_exists(turns, session_rows(turns)[k]),
    decreases turns.len(),
{
    let front = turns.drop_last();
    let t = (turns.len() - 1) as usize;
    let before = session_rows(front);
    let row = session_rows(turns)[k];
    assert(sizes_fit(front)) by {
        assert forall|i: int| 0 <= i < front.len() implies (
        #[trigger] front[i]).agent_messages@.len() <= usize::MAX
            && front[i].tool_call_orders@.len() <= usize::MAX by {
            assert(front[i] == turns[i]);
        }
    }
    if k < before.len() {
        rows_exist(front, k);
        assert(before[k] == row);
        assert(front[turn_of(row) as int] == turns[turn_of(row) as int]);
    } else {
        let turn = turns.last();
        assert(turn == turns[t as int]);
        let opening: int = if turn.user_message is Some {
            2
        } else {
            1
        };
        let j = k - before.len();
        if j >= opening {
            lemma_stream_row(turn, t, j - opening);
            assert(row == stream_rows(turn, t)[j - opening]);
        }
    }
}

/// The turns appear in order: no row stands before one of an earlier turn.
pub proof fn turns_stay_in_order(turns: Seq<CodexTurn>, i: int, j: int)
    requires
        sizes_fit(turns),
        0 <= i <= j < session_rows(turns).len(),
    ensures
        turn_of(session_rows(turns)[i]) <= turn_of(session_rows(turns)[j]),
    decreases turns.len(),
{
    let front = turns.drop_last();
    let before = session_rows(front);
    let rows = session_rows(turns);
    let t = (turns.len() - 1) as usize;
    assert(sizes_fit(front)) by {
        assert forall|i: int| 0 <= i < front.len() implies (
        #[trigger] front[i]).agent_messages@.len() <= usize::MAX
            && front[i].tool_call_orders@.len() <= usize::MAX by {
            assert(front[i] == turns[i]);
        }
    }
    if j < before.len() {
        turns_stay_in_order(front, i, j);
        assert(rows[i] == before[i] && rows[j] == before[j]);
    } else {
        lemma_last_turn(turns, j);
        if i < before.len() {
            rows_exist(front, i);
            assert(rows[i] == before[i]);
        } else {
            lemma_last_turn(turns, i);
        }
    }
}

proof fn lemma_last_turn(turns: Seq<CodexTurn>, k: int)
    requires
        sizes_fit(turns),
        turns.len() > 0,
        session_rows(turns.drop_last()).len() <= k < session_rows(turns).len(),
    ensures
        turn_of(session_rows(turns)[k]) == turns.len() - 1,
{
    let before = session_rows(turns.drop_last());
    let t = (turns.len() - 1) as usize;
    let turn = turns.last();
    assert(turn == turns[t as int]);
    let opening: int = if turn.user_message is Some {
        2
    } else {
        1
    };
    let j = k - before.len();
    if j >= opening {
        lemma_stream_row(turn, t, j - opening);
        assert(session_rows(turns)[k] == stream_rows(turn, t)[j - opening]);
    }
}

/// The position of a row in the stream of its turn.
pub open spec fn position(turn: CodexTurn, row: Row) -> int {
    match row {
        Row::Agent(_, m) => turn.agent_messages@[m as int].order as int,
        Row::Tool(_, c) => turn.tool_call_orders@[c as int] as int,
        _ => -1,
    }
}

/// Within a turn, what happened stands in stream order.
pub proof fn stream_order_is_kept(turn: CodexTurn, t: usize, i: int, j: int)
    requires
        turn.agent_messages@.len() <= usize::MAX,
        turn.tool_call_orders@.len() <= usize::MAX,
        0 <= i <= j < stream_rows(turn, t).len(),
    ensures
        position(turn, stream_rows(turn, t)[i]) <= position(turn, stream_rows(turn, t)[j]),
{
    let items = ranked_messages(turn, t) + ranked_tools(turn, t);
    order::sorting_ascends(items);
    assert(order::sorted(items)[i].0 <= order::sorted(items)[j].0);
    lemma_position(turn, t, i);
    lemma_position(turn, t, j);
}

proof fn lemma_position(turn: CodexTurn, t: usize, k: int)
    requires
        turn.agent_messages@.len() <= usize::MAX,
        turn.tool_call_orders@.len() <= usize::MAX,
        0 <= k < stream_rows(turn, t).len(),
    ensures
        position(turn, stream_rows(turn, t)[k]) == order::sorted(
            ranked_messages(turn, t) + ranked_tools(turn, t),
        )[k].0,
{
    let items = ranked_messages(turn, t) + ranked_tools(turn, t);
    order::sorting_ascends(items);
    order::sorting_invents_nothing(items, k);
    let x = order::sorted(items)[k];
    let i = choose|i: int| 0 <= i < items.len() && items[i] == x;
    let n = turn.agent_messages@.len();
    if i < n {
        assert(items[i] == ranked_messages(turn, t)[i]);
    } else {
        assert(items[i] == ranked_tools(turn, t)[i - n]);
    }
}

/// A turn has one row for its header, one for the user's message, if any, and one for each agent
/// message and tool call.
pub proof fn every_event_has_a_row(turn: CodexTurn, t: usize)
    ensures
        turn_rows(turn, t).len() == 1 + (if turn.user_message is Some {
            1int
        } else {
            0
        }) + turn.agent_messages@.len() + turn.tool_call_orders@.len(),
{
    order::sorting_ascends(ranked_messages(turn, t) + ranked_tools(turn, t));
}

} // verus!
