//! The session timer: its states and the texts that show it.

use vstd::prelude::*;
use vstd::string::StringExecFns;

verus! {

/// What the session timer is doing.
#[derive(Clone, Copy, Debug, PartialEq, Eq, Structural)]
pub enum TimerState {
    Paused,
    Running,
    Break,
}

/// Length of a session before anybody changes it, in seconds.
pub const DEFAULT_SESSION_LENGTH: u32 = 1_500;

/// By how much one step lengthens or shortens a session, in seconds.
pub const SESSION_STEP: u32 = 300;

/// The character of the decimal digit `digit`.
pub open spec fn digit_char(digit: nat) -> char {
    if digit == 0 {
        '0'
    } else if digit == 1 {
        '1'
    } else if digit == 2 {
        '2'
    } else if digit == 3 {
        '3'
    } else if digit == 4 {
        '4'
    } else if digit == 5 {
        '5'
    } else if digit == 6 {
        '6'
    } else if digit == 7 {
        '7'
    } else if digit == 8 {
        '8'
    } else {
        '9'
    }
}

/// The decimal numeral of `number`, without leading zeros.
pub open spec fn decimal(number: nat) -> Seq<char>
    decreases number,
{
    if number < 10 {
        seq![digit_char(number)]
    } else {
        decimal(number / 10).push(digit_char(number % 10))
    }
}

/// The decimal numeral of `number`, with a leading zero if it has one digit.
pub open spec fn two_digits(number: nat) -> Seq<char> {
    if number < 10 {
        seq!['0'] + decimal(number)
    } else {
        decimal(number)
    }
}

/// Minutes and seconds, each with at least two digits, with a colon between.
pub open spec fn clock(seconds: nat) -> Seq<char> {
    two_digits(seconds / 60) + seq![':'] + two_digits(seconds % 60)
}

/// Whether the timer has run past the length of the session.
pub open spec fn expired(timer_duration: nat, session_length: nat) -> bool {
    timer_duration > session_length
}

/// The time that the display shows: the time left, or the time run once the
/// session is over.
pub open spec fn shown_seconds(timer_duration: nat, session_length: nat) -> nat {
    if expired(timer_duration, session_length) {
        timer_duration
    } else {
        (session_length - timer_duration) as nat
    }
}

/// The title of the tray for a timer. A session that has run exactly its
/// length already counts as finished here.
pub open spec fn tray_title(timer_state: TimerState, timer_duration: nat, session_length: nat) -> Seq<
    char,
> {
    match timer_state {
        TimerState::Paused => "Paused"@,
        TimerState::Running => if timer_duration >= session_length {
            "Finished session: "@ + clock(timer_duration)
        } else {
            "In session: "@ + clock((session_length - timer_duration) as nat)
        },
        TimerState::Break => if timer_duration >= session_length {
            "Finished break: "@ + clock(timer_duration)
        } else {
            "Break: "@ + clock((session_length - timer_duration) as nat)
        },
    }
}

/// The words under the clock.
pub open spec fn state_label(timer_state: TimerState, timer_duration: nat, session_length: nat) -> Seq<
    char,
> {
    match timer_state {
        TimerState::Paused => "Paused"@,
        TimerState::Break => if expired(timer_duration, session_length) {
            "Finished break"@
        } else {
            "On break"@
        },
        TimerState::Running => if expired(timer_duration, session_length) {
            "Finished session"@
        } else {
            "In session"@
        },
    }
}

/// The one-character text of a decimal digit.
fn digit_text(digit: u32) -> (text: &'static str)
    requires
        digit < 10,
    ensures
        text@ == seq![digit_char(digit as nat)],
{
    proof {
        reveal_strlit("0");
        reveal_strlit("1");
        reveal_strlit("2");
        reveal_strlit("3");
        reveal_strlit("4");
        reveal_strlit("5");
        reveal_strlit("6");
        reveal_strlit("7");
        reveal_strlit("8");
        reveal_strlit("9");
    }
    if digit == 0 {
        "0"
    } else if digit == 1 {
        "1"
    } else if digit == 2 {
        "2"
    } else if digit == 3 {
        "3"
    } else if digit == 4 {
        "4"
    } else if digit == 5 {
        "5"
    } else if digit == 6 {
        "6"
    } else if digit == 7 {
        "7"
    } else if digit == 8 {
        "8"
    } else {
        "9"
    }
}

/// Writes the decimal numeral of `number` at the end of `text`.
fn push_decimal(text: &mut String, number: u32)
    ensures
        final(text)@ == old(text)@ + decimal(number as nat),
    decreases number,
{
    if number >= 10 {
        push_decimal(text, number / 10);
    }
    text.append(digit_text(number % 10));
}

/// Writes `number` with at least two digits at the end of `text`.
fn push_two_digits(text: &mut String, number: u32)
    ensures
        final(text)@ == old(text)@ + two_digits(number as nat),
{
    if number < 10 {
        proof {
            reveal_strlit("0");
        }
        text.append("0");
    }
    push_decimal(text, number);
}

/// Writes `seconds` as minutes and seconds at the end of `text`.
fn push_clock(text: &mut String, seconds: u32)
    ensures
        final(text)@ == old(text)@ + clock(seconds as nat),
{
    push_two_digits(text, seconds / 60);
    proof {
        reveal_strlit(":");
    }
    text.append(":");
    push_two_digits(text, seconds % 60);
}

/// Minutes and seconds as text: `65` gives `01:05`.
pub fn format_time(seconds: u32) -> (text: String)
    ensures
        text@ == clock(seconds as nat),
{
    let mut text = String::new();
    push_clock(&mut text, seconds);
    text
}

/// The title of the tray: the state of the timer and the time that counts.
pub fn get_tray_title(timer_state: TimerState, timer_duration: u32, session_length: u32) -> (title:
    String)
    ensures
        title@ == tray_title(timer_state, timer_duration as nat, session_length as nat),
{
    match timer_state {
        TimerState::Paused => "Paused".to_owned(),
        TimerState::Running => {
            if timer_duration >= session_length {
                let mut title = "Finished session: ".to_owned();
                push_clock(&mut title, timer_duration);
                title
            } else {
                let mut title = "In session: ".to_owned();
                push_clock(&mut title, session_length - timer_duration);
                title
            }
        },
        TimerState::Break => {
            if timer_duration >= session_length {
                let mut title = "Finished break: ".to_owned();
                push_clock(&mut title, timer_duration);
                title
            } else {
                let mut title = "Break: ".to_owned();
                push_clock(&mut title, session_length - timer_duration);
                title
            }
        },
    }
}

/// Whether the timer has run past the length of the session.
pub fn is_expired(timer_duration: u32, session_length: u32) -> (over: bool)
    ensures
        over == expired(timer_duration as nat, session_length as nat),
{
    timer_duration > session_length
}

/// The words under the clock: the state of the timer, and whether the
/// session or break is over.
pub fn session_state_display(timer_state: TimerState, timer_duration: u32, session_length: u32) -> (label:
    String)
    ensures
        label@ == state_label(timer_state, timer_duration as nat, session_length as nat),
{
    let over = is_expired(timer_duration, session_length);
    match timer_state {
        TimerState::Paused => "Paused".to_owned(),
        TimerState::Break => if over {
            "Finished break".to_owned()
        } else {
            "On break".to_owned()
        },
        TimerState::Running => if over {
            "Finished session".to_owned()
        } else {
            "In session".to_owned()
        },
    }
}

/// The clock itself: the time left, or the time run once the session is over.
pub fn get_session_display(timer_duration: u32, session_length: u32) -> (text: String)
    ensures
        text@ == clock(shown_seconds(timer_duration as nat, session_length as nat)),
{
    if is_expired(timer_duration, session_length) {
        format_time(timer_duration)
    } else {
        format_time(session_length - timer_duration)
    }
}

/// A session that is one step longer.
pub fn increase_session_length(session_length: u32) -> (longer: u32)
    requires
        session_length + SESSION_STEP <= u32::MAX,
    ensures
        longer == session_length + SESSION_STEP,
{
    session_length + SESSION_STEP
}

/// A session that is one step shorter.
pub fn decrease_session_length(session_length: u32) -> (shorter: u32)
    requires
        session_length >= SESSION_STEP,
    ensures
        shorter == session_length - SESSION_STEP,
{
    session_length - SESSION_STEP
}

/// The timer one second later: a paused timer stands still.
pub fn tick(timer_state: TimerState, timer_duration: u32) -> (later: u32)
    requires
        timer_state != TimerState::Paused ==> timer_duration < u32::MAX,
    ensures
        later == if timer_state == TimerState::Paused {
            timer_duration as int
        } else {
            timer_duration + 1
        },
{
    match timer_state {
        TimerState::Paused => timer_duration,
        _ => timer_duration + 1,
    }
}

/// Every clock text has at least five characters, and the colon stands
/// before the last two of them.
pub proof fn lemma_clock_shape(seconds: nat)
    ensures
        clock(seconds).len() >= 5,
        clock(seconds)[clock(seconds).len() - 3] == ':',
{
    lemma_decimal_len(seconds / 60);
    assert(two_digits(seconds % 60).len() == 2) by {
        reveal_with_fuel(decimal, 3);
    }
}

/// A numeral has at least one digit.
pub proof fn lemma_decimal_len(number: nat)
    ensures
        decimal(number).len() >= 1,
        number < 10 ==> decimal(number).len() == 1,
        number >= 10 ==> decimal(number).len() >= 2,
    decreases number,
{
    if number >= 10 {
        lemma_decimal_len(number / 10);
    }
}

} // verus!
