//! The status area beside the board: the typed-command prompt, the messages,
//! and the reading of a typed command.
use vstd::prelude::*;
use crate::common_components::{draw_views, lemma_draw_views_push, DrawOp, DrawView, TileColor};
use crate::player::{InputCommandEvent, InputCommands};
use crate::resources::{MessageEntry, MessageLog, RoomChanged, TypedInput};
use crate::{GAMEBOARD_WIDTH, GAME_HEIGHT, GAME_WIDTH};
use crate::text::{has_prefix, lower_seq, starts_with, to_ascii_lowercase, upper_seq};

verus! {

/// `p` is the index of the first space in `s`.
pub open spec fn is_first_space(s: Seq<char>, p: int) -> bool {
    &&& 0 <= p < s.len()
    &&& s[p] == ' '
    &&& forall|j: int| 0 <= j < p ==> s[j] != ' '
}

/// The command that the typed text `s` asks for: a text that begins with
/// "inv" in any case lists the inventory; one that begins with "drop" in any
/// case and holds a space drops an item; anything else is invalid.
pub open spec fn typed_command(s: Seq<char>) -> InputCommands {
    if has_prefix(lower_seq(s), seq!['i', 'n', 'v']) {
        InputCommands::LIST_INVENTORY
    } else if has_prefix(lower_seq(s), seq!['d', 'r', 'o', 'p']) && s.contains(' ') {
        InputCommands::DROP_ITEM
    } else {
        InputCommands::INVALID_INPUT
    }
}

/// The argument of the typed text `s`: for a drop, everything after the first
/// space; for any other command, nothing.
pub open spec fn typed_data(s: Seq<char>) -> Seq<char> {
    if typed_command(s) == InputCommands::DROP_ITEM {
        let p = choose|p: int| is_first_space(s, p);
        s.subrange(p + 1, s.len() as int)
    } else {
        Seq::empty()
    }
}

/// The index of the first space in `s`, if it holds one.
pub fn find_space(s: &str) -> (r: Option<usize>)
    ensures
        r matches Some(p) ==> is_first_space(s@, p as int),
        r is None ==> !s@.contains(' '),
{
    let len = s.unicode_len();
    let mut i: usize = 0;
    while i < len
        invariant
            len == s@.len(),
            i <= len,
            forall|j: int| 0 <= j < i ==> s@[j] != ' ',
        decreases len - i,
    {
        if s.get_char(i) == ' ' {
            return Some(i);
        }
        i = i + 1;
    }
    None
}

/// Reads the command that the player typed.
pub fn handle_player_typed_input(input_string: String) -> (e: InputCommandEvent)
    ensures
        e.command == typed_command(input_string@),
        e.data@ == typed_data(input_string@),
{
    let lower = to_ascii_lowercase(input_string.as_str());
    proof {
        reveal_strlit("inv");
        reveal_strlit("drop");
    }
    if starts_with(lower.as_str(), "inv") {
        assert("inv"@ =~= seq!['i', 'n', 'v']);
        InputCommandEvent { command: InputCommands::LIST_INVENTORY, data: String::new() }
    } else if starts_with(lower.as_str(), "drop") {
        assert("inv"@ =~= seq!['i', 'n', 'v']);
        assert("drop"@ =~= seq!['d', 'r', 'o', 'p']);
        let s = input_string.as_str();
        match find_space(s) {
            Some(p) => {
                let len = s.unicode_len();
                let rest = s.substring_char(p + 1, len);
                proof {
                    assert(s@.contains(' ')) by {
                        assert(s@[p as int] == ' ');
                    }
                    let q = choose|q: int| is_first_space(s@, q);
                    assert(q == p);
                }
                InputCommandEvent { command: InputCommands::DROP_ITEM, data: rest.to_owned() }
            },
            None => InputCommandEvent { command: InputCommands::INVALID_INPUT, data: String::new() },
        }
    } else {
        assert("inv"@ =~= seq!['i', 'n', 'v']);
        assert("drop"@ =~= seq!['d', 'r', 'o', 'p']);
        InputCommandEvent { command: InputCommands::INVALID_INPUT, data: String::new() }
    }
}

/// The prompt with the text typed so far.
pub fn render_typed_input(input_string: &TypedInput) -> (ops: Vec<DrawOp>)
    ensures
        draw_views(ops@) == seq![
            DrawView::ClearBox { x: (GAMEBOARD_WIDTH + 2) as i32, y: 2, width: 14, height: 2 },
            DrawView::PutChar {
                x: (GAMEBOARD_WIDTH + 1) as i32,
                y: 2,
                glyph: '?',
                fg: Some(TileColor::Fore),
                bg: None,
            },
            DrawView::PutString {
                x: (GAMEBOARD_WIDTH + 2) as i32,
                y: 2,
                text: input_string.input@,
                fg: Some(TileColor::Fore),
                bg: None,
            },
        ],
{
    let mut ops: Vec<DrawOp> = Vec::new();
    ops.push(DrawOp::ClearBox { x: GAMEBOARD_WIDTH + 2, y: 2, width: 14, height: 2 });
    ops.push(DrawOp::PutChar { x: GAMEBOARD_WIDTH + 1, y: 2, glyph: '?', fg: Some(TileColor::Fore), bg: None });
    ops.push(
        DrawOp::PutString {
            x: GAMEBOARD_WIDTH + 2,
            y: 2,
            text: input_string.input.clone(),
            fg: Some(TileColor::Fore),
            bg: None,
        },
    );
    assert(draw_views(ops@) =~= seq![
        DrawView::ClearBox { x: (GAMEBOARD_WIDTH + 2) as i32, y: 2, width: 14, height: 2 },
        DrawView::PutChar {
            x: (GAMEBOARD_WIDTH + 1) as i32,
            y: 2,
            glyph: '?',
            fg: Some(TileColor::Fore),
            bg: None,
        },
        DrawView::PutString {
            x: (GAMEBOARD_WIDTH + 2) as i32,
            y: 2,
            text: input_string.input@,
            fg: Some(TileColor::Fore),
            bg: None,
        },
    ]);
    ops
}

/// The number of events of `events` that are invalid commands.
pub open spec fn invalid_count(events: Seq<InputCommandEvent>) -> nat
    decreases events.len(),
{
    if events.len() == 0 {
        0
    } else {
        invalid_count(events.drop_last()) + if events.last().command
            == InputCommands::INVALID_INPUT {
            1nat
        } else {
            0nat
        }
    }
}

/// The texts of the messages of a log.
pub open spec fn log_texts(messages: Seq<MessageEntry>) -> Seq<Seq<char>> {
    messages.map_values(|m: MessageEntry| m.msg@)
}

/// Adds a "What???" message to the log for every invalid command, and says
/// how many it added.
pub fn record_invalid_inputs(events: &Vec<InputCommandEvent>, message_log: &mut MessageLog) -> (added: usize)
    requires
        old(message_log).messages@.len() + events@.len() <= usize::MAX,
    ensures
        added == invalid_count(events@),
        log_texts(final(message_log).messages@) == log_texts(old(message_log).messages@) + Seq::new(
            added as nat,
            |i: int| "What???"@,
        ),
{
    let ghost start = log_texts(message_log.messages@);
    let mut added: usize = 0;
    let n = events.len();
    for i in 0..n
        invariant
            n == events@.len(),
            added == invalid_count(events@.take(i as int)),
            added <= i,
            log_texts(message_log.messages@) =~= start + Seq::new(added as nat, |k: int| "What???"@),
    {
        assert(events@.take(i + 1).drop_last() =~= events@.take(i as int));
        if events[i].command == InputCommands::INVALID_INPUT {
            let ghost before = message_log.messages@;
            let entry = MessageEntry { msg: "What???".to_owned() };
            message_log.messages.push(entry);
            assert(log_texts(message_log.messages@) =~= log_texts(before).push(entry.msg@));
            assert(Seq::new((added + 1) as nat, |k: int| "What???"@) =~= Seq::new(
                added as nat,
                |k: int| "What???"@,
            ).push("What???"@));
            added = added + 1;
        }
    }
    assert(events@.take(n as int) =~= events@);
    added
}

/// What drawing the message `m` does: its text when it is still
/// shown, else a cleared line.
pub open spec fn message_op(m: MessageEntry, finished: bool) -> DrawView {
    if !finished {
        DrawView::PutString {
            x: (GAMEBOARD_WIDTH + 2) as i32,
            y: 0,
            text: m.msg@,
            fg: Some(TileColor::Fore),
            bg: Some(TileColor::Black),
        }
    } else {
        DrawView::ClearBox { x: (GAMEBOARD_WIDTH + 2) as i32, y: 0, width: 14, height: 1 }
    }
}

/// Draws the messages of the log, given which of them are no longer shown;
/// first, if the player has just entered another room, the status area is
/// cleared.
pub fn render_messages(room_changed: &RoomChanged, message_log: &MessageLog, finished: &Vec<bool>) -> (ops: Vec<DrawOp>)
    requires
        finished@.len() == message_log.messages@.len(),
    ensures
        draw_views(ops@) == (if room_changed.changed {
            seq![
                DrawView::ClearBox {
                    x: (GAMEBOARD_WIDTH + 2) as i32,
                    y: 0,
                    width: GAME_WIDTH,
                    height: GAME_HEIGHT,
                },
            ]
        } else {
            Seq::empty()
        }) + Seq::new(
            finished@.len(),
            |k: int| message_op(message_log.messages@[k], finished@[k]),
        ),
{
    let mut ops: Vec<DrawOp> = Vec::new();
    if room_changed.changed {
        ops.push(DrawOp::ClearBox { x: GAMEBOARD_WIDTH + 2, y: 0, width: GAME_WIDTH, height: GAME_HEIGHT });
    }
    let ghost head = draw_views(ops@);
    let ghost shown = Seq::new(
        finished@.len(),
        |k: int| message_op(message_log.messages@[k], finished@[k]),
    );
    let n = finished.len();
    for i in 0..n
        invariant
            n == finished@.len(),
            n == message_log.messages@.len(),
            shown.len() == n,
            forall|k: int| 0 <= k < n ==> #[trigger] shown[k] == message_op(message_log.messages@[k], finished@[k]),
            draw_views(ops@) =~= head + shown.take(i as int),
    {
        let op = if !finished[i] {
            DrawOp::PutString {
                x: GAMEBOARD_WIDTH + 2,
                y: 0,
                text: message_log.messages[i].msg.clone(),
                fg: Some(TileColor::Fore),
                bg: Some(TileColor::Black),
            }
        } else {
            DrawOp::ClearBox { x: GAMEBOARD_WIDTH + 2, y: 0, width: 14, height: 1 }
        };
        proof {
            lemma_draw_views_push(ops@, op);
            assert(shown.take(i + 1) =~= shown.take(i as int).push(shown[i as int]));
        }
        ops.push(op);
    }
    assert(shown.take(n as int) =~= shown);
    ops
}

/// Typing "drop " followed by any text asks to drop an item called that
/// text.
pub proof fn lemma_drop_command_round_trip(name: Seq<char>)
    ensures
        typed_command(seq!['d', 'r', 'o', 'p', ' '] + name) == InputCommands::DROP_ITEM,
        typed_data(seq!['d', 'r', 'o', 'p', ' '] + name) == name,
{
    let s = seq!['d', 'r', 'o', 'p', ' '] + name;
    let l = lower_seq(s);
    assert(l.subrange(0, 4) =~= seq!['d', 'r', 'o', 'p']);
    assert(l[0] == 'd');
    assert(!has_prefix(l, seq!['i', 'n', 'v']));
    assert(s[4] == ' ');
    assert(s.contains(' '));
    assert(is_first_space(s, 4));
    let p = choose|p: int| is_first_space(s, p);
    if p < 4 {
        assert(s[p] != ' ');
    }
    if p > 4 {
        assert(s[4] != ' ');
    }
    assert(s.subrange(5, s.len() as int) =~= name);
}

/// The command that a typed text asks for does not depend on the case of
/// its letters.
pub proof fn lemma_command_ignores_case(s: Seq<char>)
    ensures
        typed_command(lower_seq(s)) == typed_command(s),
        typed_command(upper_seq(s)) == typed_command(s),
{
    assert(lower_seq(lower_seq(s)) =~= lower_seq(s));
    assert(lower_seq(upper_seq(s)) =~= lower_seq(s));
    assert(lower_seq(s).contains(' ') == s.contains(' ')) by {
        if s.contains(' ') {
            let i = choose|i: int| 0 <= i < s.len() && s[i] == ' ';
            assert(lower_seq(s)[i] == ' ');
        }
        if lower_seq(s).contains(' ') {
            let i = choose|i: int| 0 <= i < lower_seq(s).len() && lower_seq(s)[i] == ' ';
            assert(s[i] == ' ');
        }
    }
    assert(upper_seq(s).contains(' ') == s.contains(' ')) by {
        if s.contains(' ') {
            let i = choose|i: int| 0 <= i < s.len() && s[i] == ' ';
            assert(upper_seq(s)[i] == ' ');
        }
        if upper_seq(s).contains(' ') {
            let i = choose|i: int| 0 <= i < upper_seq(s).len() && upper_seq(s)[i] == ' ';
            assert(s[i] == ' ');
        }
    }
}

/// Only invalid commands are logged, each once: the number of messages added
/// is the number of events whose command is invalid, so a frame without an
/// invalid command adds nothing and a frame of invalid commands adds one per
/// event.
pub proof fn lemma_only_invalid_commands_are_logged(events: Seq<InputCommandEvent>)
    ensures
        invalid_count(events) == events.filter(
            |e: InputCommandEvent| e.command == InputCommands::INVALID_INPUT,
        ).len(),
        (forall|i: int| 0 <= i < events.len() ==> #[trigger] events[i].command != InputCommands::INVALID_INPUT)
            ==> invalid_count(events) == 0,
        (forall|i: int| 0 <= i < events.len() ==> #[trigger] events[i].command == InputCommands::INVALID_INPUT)
            ==> invalid_count(events) == events.len(),
    decreases events.len(),
{
    let pred = |e: InputCommandEvent| e.command == InputCommands::INVALID_INPUT;
    reveal(Seq::filter);
    if events.len() > 0 {
        let q = events.drop_last();
        lemma_only_invalid_commands_are_logged(q);
        assert(forall|i: int| 0 <= i < q.len() ==> q[i] == events[i]);
        assert(events.last() == events[events.len() - 1]);
        if (forall|i: int| 0 <= i < events.len() ==> #[trigger] events[i].command != InputCommands::INVALID_INPUT) {
            assert(forall|i: int| 0 <= i < q.len() ==> #[trigger] q[i].command != InputCommands::INVALID_INPUT);
        }
        if (forall|i: int| 0 <= i < events.len() ==> #[trigger] events[i].command == InputCommands::INVALID_INPUT) {
            assert(forall|i: int| 0 <= i < q.len() ==> #[trigger] q[i].command == InputCommands::INVALID_INPUT);
        }
    }
}

/// Every text that begins with "inv", in any case, lists the inventory and
/// carries no argument.
pub proof fn lemma_inv_lists(rest: Seq<char>, a: char, b: char, c: char)
    requires
        a == 'i' || a == 'I',
        b == 'n' || b == 'N',
        c == 'v' || c == 'V',
    ensures
        typed_command(seq![a, b, c] + rest) == InputCommands::LIST_INVENTORY,
        typed_data(seq![a, b, c] + rest) == Seq::<char>::empty(),
{
    let s = seq![a, b, c] + rest;
    assert(lower_seq(s).subrange(0, 3) =~= seq!['i', 'n', 'v']);
}

/// "drop" followed by a text without a space asks for nothing that can be
/// done: there is no argument to name the item.
pub proof fn lemma_drop_needs_space(rest: Seq<char>)
    requires
        !rest.contains(' '),
    ensures
        typed_command(seq!['d', 'r', 'o', 'p'] + rest) == InputCommands::INVALID_INPUT,
{
    let s = seq!['d', 'r', 'o', 'p'] + rest;
    assert(lower_seq(s)[0] == 'd');
    assert(!has_prefix(lower_seq(s), seq!['i', 'n', 'v']));
    if s.contains(' ') {
        let i = choose|i: int| 0 <= i < s.len() && s[i] == ' ';
        assert(rest[i - 4] == ' ');
    }
}

/// The argument of a drop is what follows the first space of the typed
/// text, which comes after "drop": the text is a part without spaces, a
/// space, and the argument.
pub proof fn lemma_drop_argument_follows_first_space(s: Seq<char>)
    requires
        typed_command(s) == InputCommands::DROP_ITEM,
    ensures
        ({
            let d = typed_data(s);
            let p = s.len() - d.len() - 1;
            &&& 4 <= p < s.len()
            &&& s[p] == ' '
            &&& forall|j: int| 0 <= j < p ==> s[j] != ' '
            &&& s == s.subrange(0, p) + seq![' '] + d
        }),
{
    let q = choose|q: int| is_first_space(s, q);
    let i = choose|i: int| 0 <= i < s.len() && s[i] == ' ';
    if !is_first_space(s, q) {
        lemma_first_space_exists(s, i);
    }
    assert(lower_seq(s).subrange(0, 4) =~= seq!['d', 'r', 'o', 'p']);
    assert(lower_seq(s)[0] == 'd' && lower_seq(s)[1] == 'r' && lower_seq(s)[2] == 'o' && lower_seq(s)[3] == 'p');
    assert(s[0] != ' ' && s[1] != ' ' && s[2] != ' ' && s[3] != ' ');
    assert(s =~= s.subrange(0, q) + seq![' '] + s.subrange(q + 1, s.len() as int));
}

/// A text with a space has a first one.
proof fn lemma_first_space_exists(s: Seq<char>, i: int)
    requires
        0 <= i < s.len(),
        s[i] == ' ',
    ensures
        exists|q: int| is_first_space(s, q),
    decreases i,
{
    if exists|j: int| 0 <= j < i && s[j] == ' ' {
        let j = choose|j: int| 0 <= j < i && s[j] == ' ';
        lemma_first_space_exists(s, j);
    } else {
        assert(is_first_space(s, i));
    }
}

/// A message is shown, in grey on black at the top of the status area, only
/// while it has not run out; once it has, its line is cleared instead.
pub proof fn lemma_messages_shown_until_finished(m: MessageEntry, finished: bool)
    ensures
        !finished ==> (message_op(m, finished) matches DrawView::PutString { x, y, text, fg, bg } && x
            == 26 && y == 0 && text == m.msg@ && fg == Some(TileColor::Fore) && bg == Some(
            TileColor::Black,
        )),
        finished ==> message_op(m, finished) == (DrawView::ClearBox { x: 26, y: 0, width: 14, height: 1 }),
{
}

} // verus!
