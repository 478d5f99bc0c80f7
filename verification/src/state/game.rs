//! Playing a stage: setting it up, reaching its goal, and the player's
//! jump and landing flags.
use vstd::prelude::*;
use crate::define::MAXSTAGE;
use crate::block::{StageLayout, create_block, layout_fits, stage_fits};
use crate::text::{decimal, push_decimal};
use crate::state::{MyApp, AppState, new_run};

verus! {

/// The title shown when a stage begins.
pub open spec fn stage_title_text(stage: u32) -> Seq<char> {
    if stage == MAXSTAGE {
        "Last Stage"@
    } else {
        "Stage "@ + decimal(stage as nat)
    }
}

/// The line under the title: how many stages a run has.
pub open spec fn total_stages_text() -> Seq<char> {
    "(Total "@ + decimal(MAXSTAGE as nat) + " Stages)"@
}

/// The title shown when stage `stage` begins.
pub fn stage_title(stage: u32) -> (r: String)
    ensures
        r@ == stage_title_text(stage),
{
    if stage == MAXSTAGE {
        String::from_str("Last Stage")
    } else {
        let mut s = String::from_str("Stage ");
        push_decimal(&mut s, stage as u64);
        s
    }
}

/// The line under the stage title.
pub fn total_stages() -> (r: String)
    ensures
        r@ == total_stages_text(),
{
    let mut s = String::from_str("(Total ");
    push_decimal(&mut s, MAXSTAGE as u64);
    s.append(" Stages)");
    s
}

/// What a stage starts with.
pub struct StageSetup {
    /// The blocks and the goal.
    pub layout: StageLayout,
    /// A new run began: everything else kept per run starts over too.
    pub new_run: bool,
    /// The stage's title.
    pub title: String,
}

/// The state in which a stage is set up: a run that is at stage 1 starts
/// afresh, keeping only whether the game has been cleared.
pub open spec fn state_at_setup(app: MyApp) -> MyApp {
    if app.stage_count == 1 {
        new_run(app.is_clear)
    } else {
        app
    }
}

/// Sets up the current stage: starts a new run when at stage 1, lays out
/// the blocks at random, and gives the stage's title.
pub fn setup_stage(app: &mut MyApp) -> (s: StageSetup)
    requires
        stage_fits(old(app).stage_count),
    ensures
        *final(app) == state_at_setup(*old(app)),
        s.new_run == (old(app).stage_count == 1),
        layout_fits(final(app).stage_count, final(app).is_clear, s.layout@),
        s.title@ == stage_title_text(final(app).stage_count),
{
    let starts_run = app.stage_count == 1;
    if starts_run {
        *app = MyApp::new_run(app.is_clear);
    }
    let layout = create_block(app.stage_count, app.is_clear);
    let title = stage_title(app.stage_count);
    StageSetup { layout, new_run: starts_run, title }
}

/// The state after the player reaches the goal: on to the next stage,
/// which is to be laid out.
pub open spec fn after_goal(app: MyApp) -> MyApp {
    MyApp { stage_count: (app.stage_count + 1) as u32, is_reset_game: true, ..app }
}

/// The screen to switch to when the player reaches the goal: the ending
/// after the last stage, no switch before.
pub open spec fn goal_next_screen(app: MyApp) -> Option<AppState> {
    if app.stage_count + 1 > MAXSTAGE {
        Some(AppState::Ending)
    } else {
        None
    }
}

/// Reaching the goal, whatever the other flags, moves on exactly one stage,
/// asks for the stage to be laid out, keeps every other flag, and brings
/// the ending exactly when the stage was the last one; it never asks for
/// the game screen.
pub proof fn lemma_goal_ends_run_at_last_stage(app: MyApp)
    requires
        app.stage_count < u32::MAX,
    ensures
        goal_next_screen(app) == Some(AppState::Ending) <==> app.stage_count >= MAXSTAGE,
        goal_next_screen(app) is None <==> app.stage_count < MAXSTAGE,
        after_goal(app).stage_count == app.stage_count + 1,
        after_goal(app).is_reset_game,
        after_goal(app).jump_count == app.jump_count,
        after_goal(app).is_clear == app.is_clear,
        after_goal(app).is_ground == app.is_ground,
        after_goal(app).is_rising == app.is_rising,
        after_goal(app).is_ending_end == app.is_ending_end,
{
}

/// Handles the player reaching the goal (`reached`): the run moves on to
/// the next stage, which is to be laid out anew; after the last stage the
/// ending is due.
pub fn update_check_goal(app: &mut MyApp, reached: bool) -> (next: Option<AppState>)
    requires
        reached ==> old(app).stage_count < u32::MAX,
    ensures
        reached ==> *final(app) == after_goal(*old(app)) && next == goal_next_screen(*old(app)),
        !reached ==> *final(app) == *old(app) && next is None,
        reached ==> (next == Some(AppState::Ending) <==> old(app).stage_count >= MAXSTAGE),
        next != Some(AppState::Game),
        reached ==> final(app).stage_count == old(app).stage_count + 1 && final(app).is_reset_game,
{
    if !reached {
        return None;
    }
    app.stage_count = app.stage_count + 1;
    app.is_reset_game = true;
    if app.stage_count > MAXSTAGE {
        Some(AppState::Ending)
    } else {
        None
    }
}

/// The state after the stage has been laid out anew: the reset is done.
pub open spec fn after_reset(app: MyApp) -> MyApp {
    MyApp { is_reset_game: false, ..app }
}

/// A stage is laid out anew at most once per request: right after a
/// reset nothing is due, so a second call (which then returns `None` and
/// keeps the state) changes nothing.
pub proof fn lemma_reset_once(app: MyApp)
    ensures
        !after_reset(app).is_reset_game,
        after_reset(after_reset(app)) == after_reset(app),
{
}

/// Lays the current stage out anew when that is due, and marks it done.
pub fn update_reset_game(app: &mut MyApp) -> (layout: Option<StageLayout>)
    requires
        old(app).is_reset_game ==> stage_fits(old(app).stage_count),
    ensures
        !old(app).is_reset_game ==> *final(app) == *old(app) && layout is None,
        old(app).is_reset_game ==> *final(app) == after_reset(*old(app)) && layout is Some
            && layout_fits(old(app).stage_count, old(app).is_clear, layout->0@),
{
    if !app.is_reset_game {
        return None;
    }
    let layout = create_block(app.stage_count, app.is_clear);
    app.is_reset_game = false;
    Some(layout)
}

/// The flags after one frame of the mouse button: holding it while on a
/// block crouches; releasing it while on a block jumps.
pub open spec fn after_input(app: MyApp, pressed: bool, just_released: bool) -> MyApp {
    let bend = pressed && app.is_ground;
    if just_released && app.is_ground {
        MyApp {
            is_jump: true,
            is_bend: bend,
            jump_count: (app.jump_count + 1) as usize,
            is_ground: false,
            is_rising: true,
            ..app
        }
    } else {
        MyApp { is_jump: false, is_bend: bend, ..app }
    }
}

/// Applies one frame of the mouse button (`pressed`: held down;
/// `just_released`: let go in this frame) and tells whether the player
/// jumped.
pub fn update_player(app: &mut MyApp, pressed: bool, just_released: bool) -> (jumped: bool)
    requires
        just_released && old(app).is_ground ==> old(app).jump_count < usize::MAX,
    ensures
        *final(app) == after_input(*old(app), pressed, just_released),
        jumped == (just_released && old(app).is_ground),
        final(app).is_bend == (pressed && old(app).is_ground),
        final(app).is_jump == jumped,
        final(app).jump_count == old(app).jump_count + (if jumped { 1int } else { 0int }),
        final(app).is_ground == (old(app).is_ground && !jumped),
        final(app).is_rising == (old(app).is_rising || jumped),
{
    app.is_jump = false;
    app.is_bend = false;
    if pressed && app.is_ground {
        app.is_bend = true;
    }
    if just_released && app.is_ground {
        app.jump_count = app.jump_count + 1;
        app.is_ground = false;
        app.is_rising = true;
        app.is_jump = true;
        true
    } else {
        false
    }
}

/// The button alone decides crouching and jumping, whatever the other
/// flags: the player crouches exactly while holding the button on a block,
/// and jumps exactly when releasing it on a block; a jump counts once,
/// lifts the player off the block and starts a rise; otherwise the jump
/// count and the ground and rise flags stay.
pub proof fn lemma_input_decides_bend_and_jump(app: MyApp, pressed: bool, just_released: bool)
    requires
        just_released && app.is_ground ==> app.jump_count < usize::MAX,
    ensures
        after_input(app, pressed, just_released).is_bend == (pressed && app.is_ground),
        after_input(app, pressed, just_released).is_jump == (just_released && app.is_ground),
        after_input(app, pressed, just_released).jump_count == app.jump_count + (if just_released
            && app.is_ground { 1int } else { 0int }),
        after_input(app, pressed, just_released).is_ground == (app.is_ground && !just_released),
        after_input(app, pressed, just_released).is_rising == (app.is_rising || (just_released
            && app.is_ground)),
        after_input(app, pressed, just_released).stage_count == app.stage_count,
        after_input(app, pressed, just_released).is_block_hit == app.is_block_hit,
{
}

/// A player jumps at most once per stay on the ground: a second release
/// before landing again leaves the jump count as the first left it.
pub proof fn lemma_no_double_jump(app: MyApp, pressed1: bool, pressed2: bool, released2: bool)
    ensures
        after_input(after_input(app, pressed1, true), pressed2, released2).jump_count == (if app.is_ground {
            app.jump_count + 1
        } else {
            app.jump_count as int
        }) as usize,
        !after_input(app, pressed1, true).is_ground,
{
}

/// What the collision check found in one frame, as yes/no answers.
#[derive(Clone, Copy, Debug, PartialEq, Eq, Structural)]
pub struct Contact {
    /// The check found the player standing on a block (the check only ever
    /// grounds the player; it never lifts one off a block).
    pub is_ground: bool,
    /// The player's head hit a block.
    pub hit_top: bool,
    /// The player's side hit a block.
    pub hit_side: bool,
    /// The player moves upwards.
    pub moving_up: bool,
    /// The player was pushed vertically out of a block.
    pub pushed_vertically: bool,
    /// The player was pushed upwards out of a block.
    pub pushed_up: bool,
}

/// The sound that a new contact with a block makes.
#[derive(Clone, Copy, Debug, PartialEq, Eq, Structural)]
pub enum LandingSound {
    /// Landing on top of a block.
    Landing,
    /// Bumping into a block's side or bottom.
    SideLanding,
}

/// What a frame's contact leads to.
#[derive(Clone, Copy, Debug, PartialEq, Eq, Structural)]
pub struct ContactOutcome {
    /// The upward speed is to be cut to zero: the head hit a block on the way up.
    pub stop_rising: bool,
    /// The sound to play, if any.
    pub sound: Option<LandingSound>,
}

/// Whether a contact touches a block at all.
pub open spec fn touches(c: Contact) -> bool {
    c.pushed_vertically || c.hit_side || c.hit_top
}

/// The flags after a frame's contact.
pub open spec fn after_contact(app: MyApp, c: Contact) -> MyApp {
    MyApp {
        is_rising: if c.hit_top && c.moving_up { false } else { app.is_rising },
        is_block_hit: touches(c),
        is_ground: app.is_ground || c.is_ground,
        ..app
    }
}

/// The sound a frame's contact makes: only a contact that begins in this
/// frame sounds; landing on top (not while crouching) makes the landing
/// sound, a side or head hit the side sound.
pub open spec fn contact_sound(app: MyApp, c: Contact) -> Option<LandingSound> {
    if !app.is_block_hit && touches(c) && c.pushed_up && !c.hit_side && !c.hit_top && !app.is_bend {
        Some(LandingSound::Landing)
    } else if !app.is_block_hit && (c.hit_side || c.hit_top) {
        Some(LandingSound::SideLanding)
    } else {
        None
    }
}

/// Updates the flags from what the collision check found in this frame.
pub fn update_check_for_collisions(app: &mut MyApp, c: Contact) -> (out: ContactOutcome)
    ensures
        *final(app) == after_contact(*old(app), c),
        out.stop_rising == (c.hit_top && c.moving_up),
        out.sound == contact_sound(*old(app), c),
        final(app).is_ground == (old(app).is_ground || c.is_ground),
        final(app).is_rising == (old(app).is_rising && !(c.hit_top && c.moving_up)),
        final(app).is_block_hit == (c.pushed_vertically || c.hit_side || c.hit_top),
{
    let old_is_block_hit = app.is_block_hit;
    let stop_rising = c.hit_top && c.moving_up;
    if stop_rising {
        app.is_rising = false;
    }
    if c.pushed_vertically || c.hit_side || c.hit_top {
        app.is_block_hit = true;
    } else {
        app.is_block_hit = false;
    }
    let sound = if !old_is_block_hit && app.is_block_hit && c.pushed_up && !c.hit_side && !c.hit_top && !app.is_bend {
        Some(LandingSound::Landing)
    } else if !old_is_block_hit && c.hit_side {
        Some(LandingSound::SideLanding)
    } else if !old_is_block_hit && c.hit_top {
        Some(LandingSound::SideLanding)
    } else {
        None
    };
    app.is_ground = app.is_ground || c.is_ground;
    ContactOutcome { stop_rising, sound }
}

/// The collision update may ground the player or end a rise, never the
/// reverse: a grounded player stays grounded, and no rise begins.
pub proof fn lemma_contact_only_grounds(app: MyApp, c: Contact)
    ensures
        app.is_ground ==> after_contact(app, c).is_ground,
        after_contact(app, c).is_rising ==> app.is_rising,
        c.is_ground ==> after_contact(app, c).is_ground,
{
}

/// Only ground grounds the player: after a frame's contact the player
/// stands on a block exactly when it already did or the check found ground
/// under it; a side or head hit alone grounds nobody. The rise ends exactly
/// when the head hits a block on the way up.
pub proof fn lemma_only_ground_grounds(app: MyApp, c: Contact)
    ensures
        after_contact(app, c).is_ground == (app.is_ground || c.is_ground),
        !app.is_ground && !c.is_ground ==> !after_contact(app, c).is_ground,
        after_contact(app, c).is_rising == (app.is_rising && !(c.hit_top && c.moving_up)),
        after_contact(app, c).is_block_hit == (c.pushed_vertically || c.hit_side || c.hit_top),
        after_contact(app, c).jump_count == app.jump_count,
        after_contact(app, c).is_bend == app.is_bend,
{
}

/// One touch sounds once: while the player keeps touching blocks frame
/// after frame, only the first frame of the touch makes a sound.
pub proof fn lemma_one_sound_per_touch(app: MyApp, c1: Contact, c2: Contact)
    requires
        touches(c1),
    ensures
        contact_sound(after_contact(app, c1), c2) is None,
        contact_sound(app, c1) is Some ==> !app.is_block_hit,
{
}

/// The flags after the player has moved in a frame (`started_falling`: the
/// vertical speed turned from upwards to downwards): falling ends the
/// rise; a stage laid out anew puts the player back in the air; standing
/// on a block is no rise.
pub open spec fn after_move(app: MyApp, started_falling: bool) -> MyApp {
    let a1 = if started_falling { MyApp { is_rising: false, ..app } } else { app };
    let a2 = if a1.is_reset_game { MyApp { is_ground: false, is_rising: false, ..a1 } } else { a1 };
    if a2.is_ground { MyApp { is_rising: false, ..a2 } } else { a2 }
}

/// Updates the flags after the player has moved, and tells whether the
/// player is to be put back at the start position.
pub fn update_apply_velocity(app: &mut MyApp, started_falling: bool) -> (back_to_start: bool)
    ensures
        *final(app) == after_move(*old(app), started_falling),
        back_to_start == old(app).is_reset_game,
{
    if started_falling {
        app.is_rising = false;
    }
    let back_to_start = app.is_reset_game;
    if back_to_start {
        app.is_ground = false;
        app.is_rising = false;
    }
    if app.is_ground {
        app.is_rising = false;
    }
    back_to_start
}

/// The state after `k` goals.
pub open spec fn after_goals(app: MyApp, k: nat) -> MyApp
    decreases k,
{
    if k == 0 {
        app
    } else {
        after_goal(after_goals(app, (k - 1) as nat))
    }
}

/// A run has `MAXSTAGE` stages: from the start of a run, the `k`-th goal
/// leads to stage `k + 1`, and it brings the ending exactly when `k` is
/// `MAXSTAGE`.
pub proof fn lemma_run_has_maxstage_stages(is_clear: bool, k: nat)
    requires
        1 <= k <= MAXSTAGE,
    ensures
        after_goals(new_run(is_clear), k).stage_count == k + 1,
        goal_next_screen(after_goals(new_run(is_clear), (k - 1) as nat)) == (if k == MAXSTAGE {
            Some(AppState::Ending)
        } else {
            None::<AppState>
        }),
    decreases k,
{
    if k > 1 {
        lemma_run_has_maxstage_stages(is_clear, (k - 1) as nat);
    }
}

} // verus!
