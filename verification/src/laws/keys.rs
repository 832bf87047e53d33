//! What is promised of the keys, and of the passing of time.
use vstd::prelude::*;
use crate::action::{ActionView, AfterView};
use crate::app::AppView;
use crate::command::{command_of, CommandView};
use crate::dispatch::Step;
use crate::event::{Key, KeyCode, Modifier};
use crate::laws::steps::{in_front, notes_go_to_the_front, told_status};
use crate::text::decimal_of;

verus! {

/// A key that does nothing.
pub open spec fn ignored(v: AppView, key: Key, ts: Seq<char>) -> bool {
    v.keyed(key, ts) == (Step { app: v, action: ActionView::Done })
}

/// A character that is typed goes to the end of the line, and the completion in
/// progress is over; with the Control key, the letter c quits.
pub proof fn characters_are_typed(v: AppView, ch: char, ts: Seq<char>)
    ensures
        forall|m: Modifier|
            m == Modifier::Plain || m == Modifier::Shift ==> #[trigger] v.keyed(
                Key { code: KeyCode::Char { ch }, modifier: m, pressed: true },
                ts,
            ) == (Step {
                app: AppView { input: v.input.push(ch), tab: None, ..v },
                action: ActionView::Done,
            }),
        v.keyed(
            Key { code: KeyCode::Char { ch: 'c' }, modifier: Modifier::Control, pressed: true },
            ts,
        ) == (Step { app: v, action: ActionView::Quit }),
        ch != 'c' ==> ignored(
            v,
            Key { code: KeyCode::Char { ch }, modifier: Modifier::Control, pressed: true },
            ts,
        ),
        ignored(
            v,
            Key { code: KeyCode::Char { ch }, modifier: Modifier::Other, pressed: true },
            ts,
        ),
{
}

/// A digit with the Alt key does what the command to switch windows does with its
/// number, where there is a window of that number, and nothing else does anything.
pub proof fn digits_switch_windows(v: AppView, ch: char, ts: Seq<char>)
    ensures
        ({
            let key = Key { code: KeyCode::Char { ch }, modifier: Modifier::Alt, pressed: true };
            let number = ch as u32 - '0' as u32;
            if '1' <= ch <= '9' && number < v.windows.len() + 2 {
                v.keyed(key, ts) == v.ran(CommandView::Switch { number: number as usize }, ts)
            } else {
                ignored(v, key, ts)
            }
        }),
{
}

/// The Alt key with an arrow puts the next window to that side in front, looked at,
/// and asks for its past; the status window is between the last and the first.
pub proof fn arrows_go_through_the_windows(v: AppView, ts: Seq<char>)
    requires
        v.wf(),
    ensures
        ({
            let left = v.keyed(
                Key { code: KeyCode::Left, modifier: Modifier::Alt, pressed: true },
                ts,
            );
            let right = v.keyed(
                Key { code: KeyCode::Right, modifier: Modifier::Alt, pressed: true },
                ts,
            );
            let n = v.windows.len();
            let status = Step { app: AppView { active: None, ..v }, action: ActionView::Save };
            &&& match v.active {
                Some(i) => {
                    &&& i == 0 ==> left == status
                    &&& i > 0 ==> left == shown(v, i - 1)
                    &&& i == n - 1 ==> right == status
                    &&& i < n - 1 ==> right == shown(v, i + 1)
                },
                None => {
                    &&& n == 0 ==> left == status && right == status
                    &&& n > 0 ==> left == shown(v, n - 1) && right == shown(v, 0)
                },
            }
        }),
{
}

/// Window `i` put in front, looked at, with its past asked for.
pub open spec fn shown(v: AppView, i: int) -> Step {
    Step {
        app: in_front(v, i),
        action: ActionView::LoadHistory { win: i as usize, limit: 100, next: AfterView::Save },
    }
}

/// The Enter key runs the line as a command, with the line emptied and the
/// completion in progress over; the backspace key takes the last character away; the
/// Tab key completes.
pub proof fn the_line_is_run_or_changed(v: AppView, m: Modifier, ts: Seq<char>)
    ensures
        v.keyed(Key { code: KeyCode::Enter, modifier: m, pressed: true }, ts) == (AppView {
            input: Seq::empty(),
            tab: None,
            ..v
        }).ran(command_of(v.input), ts),
        v.keyed(Key { code: KeyCode::Backspace, modifier: m, pressed: true }, ts) == (Step {
            app: AppView {
                input: if v.input.len() > 0 {
                    v.input.take(v.input.len() - 1)
                } else {
                    Seq::empty()
                },
                tab: None,
                ..v
            },
            action: ActionView::Done,
        }),
        v.keyed(Key { code: KeyCode::Tab, modifier: m, pressed: true }, ts) == (Step {
            app: v.tabbed(),
            action: ActionView::Done,
        }),
{
    if v.input.len() > 0 {
        assert(v.input.drop_last() =~= v.input.take(v.input.len() - 1));
    } else {
        assert(v.input =~= Seq::empty());
    }
}

/// Keys that are let go, other keys, and arrows without the Alt key do nothing.
pub proof fn other_keys_do_nothing(v: AppView, key: Key, ts: Seq<char>)
    ensures
        !key.pressed ==> ignored(v, key, ts),
        key.code == KeyCode::Other ==> ignored(v, key, ts),
        (key.code == KeyCode::Left || key.code == KeyCode::Right) && key.modifier != Modifier::Alt
            ==> ignored(v, key, ts),
{
}

/// Every key is taken, but for the Enter key with a line that cannot be run.
pub proof fn keys_are_taken(v: AppView, m: Modifier, key: Key)
    ensures
        v.takes(Key { code: KeyCode::Enter, modifier: m, pressed: true }) <==> v.runnable(
            command_of(v.input),
        ),
        key.code != KeyCode::Enter || !key.pressed ==> v.takes(key),
{
}

/// From time to time the newest messages of the window in front are asked for, and
/// of no other.
pub proof fn the_front_is_kept_up_to_date(v: AppView)
    ensures
        v.refresh_due() == match v.active {
            Some(i) => ActionView::Refresh { win: i, limit: 20 },
            None => ActionView::Done,
        },
{
}

/// Once the client is ready, the status window tells so, with the number of chats
/// known.
pub proof fn readiness_is_told_in_the_status_window(v: AppView, ts: Seq<char>)
    ensures
        v.ready(ts) == told_status(
            told_status(
                v,
                ts,
                "irssi-tg ready — "@ + decimal_of(v.ordered_chats.len()) + " contacts cached."@,
            ),
            ts,
            "/help for commands  |  Tab completes names in /join and /msg"@,
        ),
{
    let text = "irssi-tg ready — "@ + decimal_of(v.ordered_chats.len()) + " contacts cached."@;
    notes_go_to_the_front(v, ts, text);
    notes_go_to_the_front(
        told_status(v, ts, text),
        ts,
        "/help for commands  |  Tab completes names in /join and /msg"@,
    );
}

} // verus!
