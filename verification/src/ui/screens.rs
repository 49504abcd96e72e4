use vstd::prelude::*;

use crate::GameState;

verus! {

/// Which screen an element of the user interface belongs to.
#[derive(Debug, PartialEq, Eq, Clone, Copy, Structural)]
pub enum ScreenLabel {
    Start,
    InGame,
    End,
}

/// The screen whose elements carry this label while the game is in `state`.
pub fn screen_label_for(state: GameState) -> (label: ScreenLabel)
    ensures
        label == match state {
            GameState::Start => ScreenLabel::Start,
            GameState::InGame => ScreenLabel::InGame,
            GameState::End => ScreenLabel::End,
        },
{
    match state {
        GameState::Start => ScreenLabel::Start,
        GameState::InGame => ScreenLabel::InGame,
        GameState::End => ScreenLabel::End,
    }
}

/// The character for a decimal digit.
pub open spec fn digit_char(d: int) -> char {
    if d == 0 {
        '0'
    } else if d == 1 {
        '1'
    } else if d == 2 {
        '2'
    } else if d == 3 {
        '3'
    } else if d == 4 {
        '4'
    } else if d == 5 {
        '5'
    } else if d == 6 {
        '6'
    } else if d == 7 {
        '7'
    } else if d == 8 {
        '8'
    } else {
        '9'
    }
}

/// The decimal notation of `n`, without leading zeros.
pub open spec fn decimal(n: nat) -> Seq<char>
    decreases n,
{
    if n < 10 {
        seq![digit_char(n as int)]
    } else {
        decimal(n / 10) + seq![digit_char((n % 10) as int)]
    }
}

fn digit_str(d: u32) -> (s: &'static str)
    requires
        d < 10,
    ensures
        s@ == seq![digit_char(d as int)],
{
    if d == 0 {
        proof {
            reveal_strlit("0");
        }
        "0"
    } else if d == 1 {
        proof {
            reveal_strlit("1");
        }
        "1"
    } else if d == 2 {
        proof {
            reveal_strlit("2");
        }
        "2"
    } else if d == 3 {
        proof {
            reveal_strlit("3");
        }
        "3"
    } else if d == 4 {
        proof {
            reveal_strlit("4");
        }
        "4"
    } else if d == 5 {
        proof {
            reveal_strlit("5");
        }
        "5"
    } else if d == 6 {
        proof {
            reveal_strlit("6");
        }
        "6"
    } else if d == 7 {
        proof {
            reveal_strlit("7");
        }
        "7"
    } else if d == 8 {
        proof {
            reveal_strlit("8");
        }
        "8"
    } else {
        proof {
            reveal_strlit("9");
        }
        "9"
    }
}

/// The number a string of decimal digits stands for, each character taken
/// for its distance from `'0'`.
pub open spec fn numeral_value(s: Seq<char>) -> int
    decreases s.len(),
{
    if s.len() == 0 {
        0
    } else {
        numeral_value(s.drop_last()) * 10 + (s.last() as int - '0' as int)
    }
}

/// Each digit is written as the character that stands for its own value:
/// the digit's distance from `'0'`.
pub proof fn lemma_digit_char_value(d: int)
    requires
        0 <= d < 10,
    ensures
        digit_char(d) as int == '0' as int + d,
{
}

/// The decimal notation of a number is made of digits only, starts with a
/// digit other than `'0'` unless the number is below ten, and reads back as
/// the number.
pub proof fn lemma_decimal_reads_back(n: nat)
    ensures
        decimal(n).len() > 0,
        forall|i: int| 0 <= i < decimal(n).len() ==> '0' <= #[trigger] decimal(n)[i] <= '9',
        n >= 10 ==> decimal(n)[0] != '0',
        numeral_value(decimal(n)) == n,
    decreases n,
{
    if n < 10 {
        lemma_digit_char_value(n as int);
        assert(decimal(n).drop_last() =~= Seq::<char>::empty());
        assert(numeral_value(Seq::<char>::empty()) == 0);
        assert(decimal(n).last() == digit_char(n as int));
        assert(numeral_value(decimal(n)) == numeral_value(decimal(n).drop_last()) * 10 + (decimal(n).last() as int
            - '0' as int));
    } else {
        lemma_decimal_reads_back(n / 10);
        lemma_digit_char_value((n % 10) as int);
        let before = decimal(n / 10);
        let all = decimal(n);
        assert(all == before + seq![digit_char((n % 10) as int)]);
        assert(all.drop_last() =~= before);
        assert forall|i: int| 0 <= i < all.len() implies '0' <= #[trigger] all[i] <= '9' by {
            if i < before.len() {
                assert(all[i] == before[i]);
            }
        }
        assert(all[0] == before[0]);
        assert(all.last() == digit_char((n % 10) as int));
        assert(numeral_value(all) == numeral_value(all.drop_last()) * 10 + (all.last() as int - '0' as int));
        assert(numeral_value(all) == (n / 10) * 10 + n % 10);
    }
}

/// Writes `n` in decimal notation.
pub fn decimal_string(n: u32) -> (s: String)
    ensures
        s@ == decimal(n as nat),
        numeral_value(s@) == n,
    decreases n,
{
    proof {
        lemma_decimal_reads_back(n as nat);
    }
    if n < 10 {
        digit_str(n).to_owned()
    } else {
        let mut s = decimal_string(n / 10);
        s.append(digit_str(n % 10));
        s
    }
}

/// How far the stream has come: `current` of `total` seconds have passed.
#[derive(Debug, PartialEq, Eq, Clone, Copy, Structural)]
pub struct HealthProgress {
    pub current: u32,
    pub total: u32,
}

impl HealthProgress {
    /// The progress at the start of a stream of two hours.
    pub fn for_stream() -> (progress: HealthProgress)
        ensures
            progress.current == 0,
            progress.total == 2 * 60 * 60,
    {
        let hours_total: u32 = 2;
        let minutes_total = hours_total * 60;
        let seconds_total = minutes_total * 60;
        HealthProgress { current: 0, total: seconds_total }
    }

    /// One more second has passed, unless the stream has already ended.
    pub fn advance(&mut self)
        requires
            old(self).current == old(self).total || old(self).current < u32::MAX,
        ensures
            final(self).total == old(self).total,
            final(self).current == if old(self).current == old(self).total {
                old(self).current as int
            } else {
                old(self).current + 1
            },
    {
        if self.current == self.total {
            return;
        }
        self.current = self.current + 1;
    }

    /// The stream has used up all of its time.
    pub fn is_depleted(&self) -> (depleted: bool)
        ensures
            depleted == (self.current == self.total),
    {
        self.current == self.total
    }

    /// The text of the health bar: the seconds left, a slash, and the total.
    pub fn health_text(&self) -> (text: String)
        requires
            self.current <= self.total,
        ensures
            text@ == decimal((self.total - self.current) as nat) + " / "@ + decimal(
                self.total as nat,
            ),
    {
        let mut text = decimal_string(self.total - self.current);
        text.append(" / ");
        text.append(decimal_string(self.total).as_str());
        text
    }
}

/// One second passes on the health bar each time its timer runs out,
/// until the stream has ended.
pub fn decrement_health_timer(progress: &mut HealthProgress, timer_finished: bool)
    requires
        timer_finished ==> old(progress).current == old(progress).total || old(progress).current
            < u32::MAX,
    ensures
        final(progress).total == old(progress).total,
        final(progress).current == if timer_finished && old(progress).current != old(progress).total {
            old(progress).current + 1
        } else {
            old(progress).current as int
        },
{
    if progress.current == progress.total {
        return;
    }
    if !timer_finished {
        return;
    }
    progress.advance();
}

/// The game ends once the stream has used up its time.
pub fn end_ingame_on_no_health(progress: &HealthProgress) -> (next: Option<GameState>)
    ensures
        next == if progress.current == progress.total {
            Some(GameState::End)
        } else {
            None
        },
{
    if progress.current != progress.total {
        return None;
    }
    Some(GameState::End)
}

/// Pressing Enter moves to the next screen.
pub fn cycle_screens(enter_pressed: bool, game_state: GameState) -> (next: Option<GameState>)
    ensures
        next == if enter_pressed {
            Some(game_state.spec_cycled())
        } else {
            None
        },
{
    if !enter_pressed {
        return None;
    }
    Some(game_state.cycled())
}

/// The progress counts up one second at a time and stops at its total: it
/// never passes it, however many seconds pass.
pub proof fn lemma_health_stays_within_total(progress: HealthProgress, seconds: nat)
    requires
        progress.current <= progress.total,
    ensures
        progress_after(progress, seconds).current <= progress.total,
        progress_after(progress, seconds).total == progress.total,
        progress_after(progress, seconds).current == if progress.current + seconds
            >= progress.total {
            progress.total as int
        } else {
            progress.current + seconds
        },
    decreases seconds,
{
    if seconds > 0 {
        lemma_health_stays_within_total(progress, (seconds - 1) as nat);
    }
}

/// The progress after `seconds` calls of `advance`.
pub open spec fn progress_after(progress: HealthProgress, seconds: nat) -> HealthProgress
    decreases seconds,
{
    if seconds == 0 {
        progress
    } else {
        let before = progress_after(progress, (seconds - 1) as nat);
        if before.current == before.total {
            before
        } else {
            HealthProgress { current: (before.current + 1) as u32, total: before.total }
        }
    }
}

} // verus!
