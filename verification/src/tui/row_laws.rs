//! What holds of the lines of a session's detail list.

use vstd::prelude::*;

use crate::order;
use crate::parser::turn::CodexTurn;
use crate::tui::rows;
use crate::tui::rows::Row;

verus! {

/// Whether one row of a turn stands before another: the header before all, the user's message
/// before what happened then, and of that what came first in the stream, messages before tool
/// calls at the same position, and else those that were recorded first.
pub open spec fn precedes(turn: CodexTurn, x: Row, y: Row) -> bool {
    match (x, y) {
        (_, Row::TurnHeader(_)) => false,
        (Row::TurnHeader(_), _) => true,
        (_, Row::UserMessage(_)) => false,
        (Row::UserMessage(_), _) => true,
        (Row::Agent(_, m), Row::Agent(_, n)) => {
            let p = turn.agent_messages@[m as int].order;
            let q = turn.agent_messages@[n as int].order;
            p < q || (p == q && m < n)
        },
        (Row::Agent(_, m), Row::Tool(_, c)) => turn.agent_messages@[m as int].order
            <= turn.tool_call_orders@[c as int],
        (Row::Tool(_, c), Row::Agent(_, m)) => turn.tool_call_orders@[c as int]
            < turn.agent_messages@[m as int].order,
        (Row::Tool(_, c), Row::Tool(_, d)) => {
            let p = turn.tool_call_orders@[c as int];
            let q = turn.tool_call_orders@[d as int];
            p < q || (p == q && c < d)
        },
    }
}

spec fn fits(turn: CodexTurn) -> bool {
    turn.agent_messages@.len() <= usize::MAX && turn.tool_call_orders@.len() <= usize::MAX
}

/// What stands at place `i` among the messages and tool calls of a turn.
spec fn event(turn: CodexTurn, t: usize, i: int) -> Row {
    if i < turn.agent_messages@.len() {
        Row::Agent(t, i as usize)
    } else {
        Row::Tool(t, (i - turn.agent_messages@.len()) as usize)
    }
}

proof fn lemma_stream(turn: CodexTurn, t: usize) -> (places: Seq<int>)
    requires
        fits(turn),
    ensures
        places.len() == turn.agent_messages@.len() + turn.tool_call_orders@.len(),
        rows::stream_rows(turn, t).len() == places.len(),
        forall|k: int|
            #![trigger places[k]]
            0 <= k < places.len() ==> 0 <= places[k] < places.len() && rows::stream_rows(
                turn,
                t,
            )[k] == event(turn, t, places[k]),
        forall|n: int| 0 <= n < places.len() ==> #[trigger] places.contains(n),
        forall|i: int, j: int|
            0 <= i < j < places.len() ==> precedes(
                turn,
                #[trigger] rows::stream_rows(turn, t)[i],
                #[trigger] rows::stream_rows(turn, t)[j],
            ),
{
    let messages = rows::ranked_messages(turn, t);
    let tools = rows::ranked_tools(turn, t);
    let items = messages + tools;
    let n = messages.len() as int;
    let places = order::sorting_is_a_ranking(items);
    let stream = rows::stream_rows(turn, t);
    assert forall|i: int| 0 <= i < items.len() implies (#[trigger] items[i]).1 == event(
        turn,
        t,
        i,
    ) by {
        if i < n {
            assert(items[i] == messages[i]);
        } else {
            assert(items[i] == tools[i - n]);
        }
    }
    assert forall|k: int| #![trigger places[k]] 0 <= k < places.len() implies 0 <= places[k]
        < places.len() && stream[k] == event(turn, t, places[k]) by {
        assert(order::sorted(items)[k] == items[places[k]]);
    }
    assert forall|i: int, j: int| 0 <= i < j < places.len() implies precedes(
        turn,
        #[trigger] stream[i],
        #[trigger] stream[j],
    ) by {
        let x = places[i];
        let y = places[j];
        assert(stream[i] == event(turn, t, x));
        assert(stream[j] == event(turn, t, y));
        assert(items[x].0 < items[y].0 || (items[x].0 == items[y].0 && x < y));
        if x < n {
            assert(items[x] == messages[x]);
        } else {
            assert(items[x] == tools[x - n]);
        }
        if y < n {
            assert(items[y] == messages[y]);
        } else {
            assert(items[y] == tools[y - n]);
        }
    }
    places
}

spec fn opening(turn: CodexTurn) -> int {
    if turn.user_message is Some {
        2
    } else {
        1
    }
}

proof fn lemma_turn_has(turn: CodexTurn, t: usize, row: Row)
    requires
        fits(turn),
        rows::turn_of(row) == t,
        match row {
            Row::TurnHeader(_) => true,
            Row::UserMessage(_) => turn.user_message is Some,
            Row::Agent(_, m) => m < turn.agent_messages@.len(),
            Row::Tool(_, c) => c < turn.tool_call_orders@.len(),
        },
    ensures
        rows::turn_rows(turn, t).contains(row),
{
    let all = rows::turn_rows(turn, t);
    let o = opening(turn);
    match row {
        Row::TurnHeader(_) => {
            assert(all[0] == row);
        },
        Row::UserMessage(_) => {
            assert(all[1] == row);
        },
        Row::Agent(_, m) => {
            let places = lemma_stream(turn, t);
            assert(places.contains(m as int));
            let k = choose|k: int| 0 <= k < places.len() && places[k] == m as int;
            assert(places[k] == m as int);
            assert(all[o + k] == rows::stream_rows(turn, t)[k]);
            assert(all[o + k] == row);
        },
        Row::Tool(_, c) => {
            let places = lemma_stream(turn, t);
            let at = turn.agent_messages@.len() + c;
            assert(places.contains(at));
            let k = choose|k: int| 0 <= k < places.len() && places[k] == at;
            assert(places[k] == at);
            assert(all[o + k] == rows::stream_rows(turn, t)[k]);
            assert(all[o + k] == row);
        },
    }
}

proof fn lemma_front_fits(turns: Seq<CodexTurn>)
    requires
        rows::sizes_fit(turns),
        turns.len() > 0,
    ensures
        rows::sizes_fit(turns.drop_last()),
        fits(turns.last()),
{
    let front = turns.drop_last();
    assert(turns.last() == turns[turns.len() - 1]);
    assert forall|i: int| 0 <= i < front.len() implies (#[trigger] front[i]).agent_messages@.len()
        <= usize::MAX && front[i].tool_call_orders@.len() <= usize::MAX by {
        assert(front[i] == turns[i]);
    }
}

/// Everything in a session has a row: each turn its header, each user message, each agent message
/// and each tool call one of its own.
pub proof fn everything_has_a_row(turns: Seq<CodexTurn>, t: usize, m: usize, c: usize)
    requires
        rows::sizes_fit(turns),
        t < turns.len(),
    ensures
        rows::session_rows(turns).contains(Row::TurnHeader(t)),
        turns[t as int].user_message is Some ==> rows::session_rows(turns).contains(
            Row::UserMessage(t),
        ),
        m < turns[t as int].agent_messages@.len() ==> rows::session_rows(turns).contains(
            Row::Agent(t, m),
        ),
        c < turns[t as int].tool_call_orders@.len() ==> rows::session_rows(turns).contains(
            Row::Tool(t, c),
        ),
{
    lemma_session_has(turns, Row::TurnHeader(t));
    if turns[t as int].user_message is Some {
        lemma_session_has(turns, Row::UserMessage(t));
    }
    if m < turns[t as int].agent_messages@.len() {
        lemma_session_has(turns, Row::Agent(t, m));
    }
    if c < turns[t as int].tool_call_orders@.len() {
        lemma_session_has(turns, Row::Tool(t, c));
    }
}

proof fn lemma_session_has(turns: Seq<CodexTurn>, row: Row)
    requires
        rows::sizes_fit(turns),
        rows::row_exists(turns, row),
    ensures
        rows::session_rows(turns).contains(row),
    decreases turns.len(),
{
    let front = turns.drop_last();
    let last = (turns.len() - 1) as usize;
    let before = rows::session_rows(front);
    let here = rows::turn_rows(turns.last(), last);
    let all = rows::session_rows(turns);
    lemma_front_fits(turns);
    if rows::turn_of(row) == last {
        assert(turns[last as int] == turns.last());
        lemma_turn_has(turns.last(), last, row);
        let k = choose|k: int| 0 <= k < here.len() && here[k] == row;
        assert(all[before.len() + k] == row);
    } else {
        assert(front[rows::turn_of(row) as int] == turns[rows::turn_of(row) as int]);
        lemma_session_has(front, row);
        let k = choose|k: int| 0 <= k < before.len() && before[k] == row;
        assert(all[k] == row);
    }
}

/// Every row belongs to something in the session: there is no other row.
pub proof fn rows_belong_to_something(turns: Seq<CodexTurn>, k: int)
    requires
        rows::sizes_fit(turns),
        0 <= k < rows::session_rows(turns).len(),
    ensures
        match rows::session_rows(turns)[k] {
            Row::TurnHeader(t) => t < turns.len(),
            Row::UserMessage(t) => t < turns.len() && turns[t as int].user_message is Some,
            Row::Agent(t, m) => t < turns.len() && m < turns[t as int].agent_messages@.len(),
            Row::Tool(t, c) => t < turns.len() && c < turns[t as int].tool_call_orders@.len(),
        },
{
    rows::rows_exist(turns, k);
}

/// The turn that a row names.
pub open spec fn named_turn(row: Row) -> usize {
    match row {
        Row::TurnHeader(t) => t,
        Row::UserMessage(t) => t,
        Row::Agent(t, _) => t,
        Row::Tool(t, _) => t,
    }
}

/// Rows stand in the order of their turns, and within a turn as the conversation happened; so no
/// row occurs twice.
pub proof fn rows_follow_the_conversation(turns: Seq<CodexTurn>, i: int, j: int)
    requires
        rows::sizes_fit(turns),
        0 <= i < j < rows::session_rows(turns).len(),
    ensures
        ({
            let x = rows::session_rows(turns)[i];
            let y = rows::session_rows(turns)[j];
            &&& named_turn(x) < named_turn(y) || (named_turn(x) == named_turn(y) && precedes(
                turns[named_turn(x) as int],
                x,
                y,
            ))
            &&& x != y
        }),
    decreases turns.len(),
{
    let front = turns.drop_last();
    let last = (turns.len() - 1) as usize;
    let before = rows::session_rows(front);
    let turn = turns.last();
    let here = rows::turn_rows(turn, last);
    let all = rows::session_rows(turns);
    let n = before.len() as int;
    lemma_front_fits(turns);
    assert(turns[last as int] == turn);
    if j < n {
        assert(all[i] == before[i] && all[j] == before[j]);
        rows_follow_the_conversation(front, i, j);
        rows::rows_exist(front, i);
        assert(front[named_turn(all[i]) as int] == turns[named_turn(all[i]) as int]);
    } else {
        let places = lemma_stream(turn, last);
        let stream = rows::stream_rows(turn, last);
        let o = opening(turn);
        let y = all[j];
        assert(y == here[j - n]);
        if j - n >= o {
            assert(y == stream[j - n - o]);
            assert(places[j - n - o] >= 0);
        }
        assert(named_turn(y) == last);
        if i < n {
            assert(all[i] == before[i]);
            rows::rows_exist(front, i);
        } else {
            assert(all[i] == here[i - n]);
            if i - n >= o {
                assert(all[i] == stream[i - n - o]);
                assert(precedes(turn, stream[i - n - o], stream[j - n - o]));
            }
            if i - n >= o {
                assert(places[i - n - o] >= 0);
            }
        }
    }
}

} // verus!
