//! The ending screen: the run's results, and a click to play again.
use vstd::prelude::*;
use crate::text::{decimal, push_decimal, digits_value, is_digit, lemma_decimal_reads_back};
use crate::state::{MyApp, AppState, new_run};
use crate::state::game::state_at_setup;

verus! {

/// The time a run took, from its whole seconds: minutes and seconds from a
/// minute on, seconds alone before.
pub open spec fn duration_text(secs: u32) -> Seq<char> {
    if secs >= 60 {
        decimal((secs / 60) as nat) + " minutes "@ + decimal((secs % 60) as nat) + " seconds"@
    } else {
        decimal(secs as nat) + " seconds"@
    }
}

/// The time line of the ending.
pub open spec fn time_text(secs: u32) -> Seq<char> {
    "time: "@ + duration_text(secs)
}

/// The jump line of the ending.
pub open spec fn jump_text(jumps: usize) -> Seq<char> {
    "jump: "@ + decimal(jumps as nat)
}

/// The state once the ending is shown: the next run starts at stage 1,
/// and blocks carry numbers from now on.
pub open spec fn after_ending_starts(app: MyApp) -> MyApp {
    MyApp { stage_count: 1, is_clear: true, ..app }
}

/// The texts the ending shows.
pub struct EndingTexts {
    /// How long the run took.
    pub time: String,
    /// How many jumps the run took.
    pub jump: String,
}

/// The time line of the ending for a run of `secs` whole seconds.
pub fn time_line(secs: u32) -> (r: String)
    ensures
        r@ == time_text(secs),
{
    let mut s = String::from_str("time: ");
    if secs >= 60 {
        push_decimal(&mut s, (secs / 60) as u64);
        s.append(" minutes ");
        push_decimal(&mut s, (secs % 60) as u64);
        s.append(" seconds");
    } else {
        push_decimal(&mut s, secs as u64);
        s.append(" seconds");
    }
    s
}

/// The jump line of the ending.
pub fn jump_line(jumps: usize) -> (r: String)
    ensures
        r@ == jump_text(jumps),
{
    let mut s = String::from_str("jump: ");
    push_decimal(&mut s, jumps as u64);
    s
}

/// Shows the ending of a run that took `secs` whole seconds: the next run
/// will start at stage 1 with numbered blocks; gives the results' texts.
pub fn spawn_system(app: &mut MyApp, secs: u32) -> (texts: EndingTexts)
    ensures
        *final(app) == after_ending_starts(*old(app)),
        texts.time@ == time_text(secs),
        texts.jump@ == jump_text(old(app).jump_count),
{
    app.stage_count = 1;
    app.is_clear = true;
    EndingTexts { time: time_line(secs), jump: jump_line(app.jump_count) }
}

/// The screen to switch to on the ending: a release of the mouse button
/// after the ending's text has come to rest starts a new game.
pub fn update_player(app: &MyApp, just_released: bool) -> (next: Option<AppState>)
    ensures
        next == (if just_released && app.is_ending_end { Some(AppState::Game) } else { None::<AppState> }),
{
    if just_released && app.is_ending_end {
        Some(AppState::Game)
    } else {
        None
    }
}

/// The jump line reads back as the run's jump count: it is "jump: "
/// followed by digits only, with no leading zero unless the count is zero,
/// whose value in base ten is the jump count.
pub proof fn lemma_jump_text_reads_back(jumps: usize)
    ensures
        jump_text(jumps).len() > 6,
        jump_text(jumps).subrange(0, 6) == "jump: "@,
        digits_value(jump_text(jumps).subrange(6, jump_text(jumps).len() as int)) == jumps,
        forall|i: int| 6 <= i < jump_text(jumps).len() ==> is_digit(#[trigger] jump_text(jumps)[i]),
        jumps > 0 ==> jump_text(jumps)[6] != '0',
{
    reveal_strlit("jump: ");
    lemma_decimal_reads_back(jumps as nat);
    let t = jump_text(jumps);
    let d = decimal(jumps as nat);
    assert(t.subrange(0, 6) =~= "jump: "@);
    assert(t.subrange(6, t.len() as int) =~= d);
    assert(forall|i: int| 6 <= i < t.len() ==> t[i] == d[i - 6]);
}

/// After the ending, the next game starts a new run at stage 1, with
/// numbered blocks.
pub proof fn lemma_ending_starts_cleared_run(app: MyApp)
    ensures
        state_at_setup(after_ending_starts(app)) == new_run(true),
{
}

/// The time shown covers the whole run: from a minute on, it shows `m`
/// minutes and `s` seconds with `60 * m + s` the run's seconds and `s`
/// under a minute; before, the seconds alone.
pub proof fn lemma_time_text_adds_up(secs: u32)
    ensures
        secs >= 60 ==> exists|m: nat, s: nat|
            s < 60 && #[trigger] (60 * m + s) == secs && time_text(secs) == "time: "@ + decimal(m) + " minutes "@
                + decimal(s) + " seconds"@,
        secs < 60 ==> time_text(secs) == "time: "@ + decimal(secs as nat) + " seconds"@,
{
    if secs >= 60 {
        let m = (secs / 60) as nat;
        let s = (secs % 60) as nat;
        assert(60 * m + s == secs);
    }
}

} // verus!
