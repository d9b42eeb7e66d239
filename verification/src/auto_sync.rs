//! The daily sync.

use vstd::prelude::*;

use crate::clock::{
    local_now, minute_of_day, reads_clock, time_of_day, Moment, DATE_FORMAT, TIME_FORMAT,
};
use crate::config::AppConfig;
use crate::sorting::law_text_order;
use crate::sync::SyncResponse;
use crate::text::{join3, nat_text, not_after, opt_text, text_eq, text_le, u64_text};

verus! {

/// The date of the last daily sync; empty before the first.
pub struct AutoSync {
    pub last_sync_date: String,
}

/// Whether the daily sync is to be run: it is enabled, has not been run today,
/// and its time has come.
pub open spec fn is_due(
    cfg: AppConfig,
    last_sync_date: Seq<char>,
    today: Seq<char>,
    current_time: Seq<char>,
) -> bool {
    &&& cfg.auto_sync_enabled
    &&& last_sync_date != today
    &&& text_le(cfg.auto_sync_time@, current_time)
}

/// Whether the clock of the machine can show this date and this time of day
/// when it is read.
pub closed spec fn clock_shows(date: String, time: String) -> bool {
    call_ensures(local_now, (DATE_FORMAT, TIME_FORMAT), (date, time))
}

/// What the clock shows is what `chrono::Local::now` returns, and nothing else.
proof fn law_clock_is_the_machines(date: String, time: String)
    ensures
        clock_shows(date, time) == call_ensures(
            local_now,
            (DATE_FORMAT, TIME_FORMAT),
            (date, time),
        ),
{
}

/// The date of the last daily sync after one on `today`: that of a sync that
/// failed does not count.
pub open spec fn date_after(last_sync_date: Seq<char>, today: Seq<char>, succeeded: bool) -> Seq<
    char,
> {
    if succeeded {
        today
    } else {
        last_sync_date
    }
}

/// Begins the daily sync, unless it is running already.
pub fn start_auto_sync(running: &mut bool) -> (r: Option<AutoSync>)
    ensures
        *final(running),
        match r {
            Some(auto) => !*old(running) && auto.last_sync_date@ == Seq::<char>::empty(),
            None => *old(running),
        },
{
    if *running {
        return None;
    }
    *running = true;
    Some(AutoSync::start())
}

impl AutoSync {
    /// No daily sync has been run.
    pub fn start() -> (r: AutoSync)
        ensures
            r.last_sync_date@ == Seq::<char>::empty(),
    {
        AutoSync { last_sync_date: String::new() }
    }

    /// Whether the daily sync is to be run, given the date and the time.
    pub fn due(&self, cfg: &AppConfig, today: &str, current_time: &str) -> (r: bool)
        ensures
            r == is_due(*cfg, self.last_sync_date@, today@, current_time@),
    {
        cfg.auto_sync_enabled && !text_eq(self.last_sync_date.as_str(), today) && not_after(
            cfg.auto_sync_time.as_str(),
            current_time,
        )
    }

    /// The local date, where the daily sync is to be run now. It depends on
    /// the clock of the machine.
    pub fn check(&self, cfg: &AppConfig) -> (r: Option<String>)
        ensures
            cfg.auto_sync_enabled ==> exists|here: Moment, today: String, time: String| #[trigger]
                clock_shows(today, time) && #[trigger] reads_clock(here, today@, time@)
                    && opt_text(r) == (if is_due(
                    *cfg,
                    self.last_sync_date@,
                    today@,
                    time@,
                ) {
                    Some(today@)
                } else {
                    None
                }),
            !cfg.auto_sync_enabled ==> r is None,
    {
        if !cfg.auto_sync_enabled {
            return None;
        }
        let (today, current_time) = local_now(DATE_FORMAT, TIME_FORMAT);
        assert(clock_shows(today, current_time));
        if self.due(cfg, today.as_str(), current_time.as_str()) {
            Some(today)
        } else {
            None
        }
    }

    /// Takes what the daily sync came to. One that failed is tried again. It
    /// returns what the user is told, where something was logged.
    pub fn synced(&mut self, today: String, result: &Result<SyncResponse, String>) -> (r: Option<
        String,
    >)
        ensures
            final(self).last_sync_date@ == date_after(
                old(self).last_sync_date@,
                today@,
                *result is Ok,
            ),
            match *result {
                Ok(done) => (if done.synced > 0 {
                    r matches Some(body) && body@ == "Auto-synced "@ + nat_text(
                        done.synced as nat,
                    ) + " entries to Jira"@
                } else {
                    r is None
                }),
                Err(_) => *final(self) == *old(self) && r is None,
            },
    {
        match result {
            Ok(done) => {
                self.last_sync_date = today;
                if done.synced > 0 {
                    let number = u64_text(done.synced as u64);
                    Some(join3("Auto-synced ", number.as_str(), " entries to Jira"))
                } else {
                    None
                }
            },
            Err(_) => None,
        }
    }
}

/// One look at the clock: the settings in force, the date and the time, and
/// whether a sync succeeded where one was run.
pub struct Look {
    pub cfg: AppConfig,
    pub today: Seq<char>,
    pub time: Seq<char>,
    pub succeeded: bool,
}

/// The date of the last daily sync after a number of looks.
pub open spec fn last_date(looks: Seq<Look>) -> Seq<char>
    decreases looks.len(),
{
    if looks.len() == 0 {
        seq![]
    } else {
        let before = last_date(looks.drop_last());
        let look = looks.last();
        if is_due(look.cfg, before, look.today, look.time) {
            date_after(before, look.today, look.succeeded)
        } else {
            before
        }
    }
}

/// Whether a sync is run at the `i`-th look.
pub open spec fn runs_at(looks: Seq<Look>, i: int) -> bool {
    is_due(looks[i].cfg, last_date(looks.take(i)), looks[i].today, looks[i].time)
}

proof fn lemma_last_date(looks: Seq<Look>, i: int, j: int)
    requires
        0 <= i < j <= looks.len(),
        runs_at(looks, i),
        looks[i].succeeded,
        forall|k: int| i <= k < j ==> (#[trigger] looks[k]).today == looks[i].today,
    ensures
        last_date(looks.take(j)) == looks[i].today,
    decreases j,
{
    let now = looks.take(j);
    assert(now.drop_last() =~= looks.take(j - 1));
    if i < j - 1 {
        lemma_last_date(looks, i, j - 1);
    }
}

/// The daily sync as a whole. A sync is run only where it is enabled and its
/// time has come. After one that succeeded none is run for the rest of the day,
/// whatever the settings become. After one that failed the next look tries
/// again, unless it is switched off or put off.
pub proof fn law_daily_sync(looks: Seq<Look>, i: int, j: int)
    requires
        0 <= i < j < looks.len(),
        runs_at(looks, i),
        forall|k: int| i <= k <= j ==> (#[trigger] looks[k]).today == looks[i].today,
    ensures
        looks[i].cfg.auto_sync_enabled,
        text_le(looks[i].cfg.auto_sync_time@, looks[i].time),
        looks[i].succeeded ==> !runs_at(looks, j),
        !looks[i].succeeded && j == i + 1 && looks[j].cfg.auto_sync_enabled && text_le(
            looks[j].cfg.auto_sync_time@,
            looks[j].time,
        ) ==> runs_at(looks, j),
{
    if looks[i].succeeded {
        lemma_last_date(looks, i, j);
    } else if j == i + 1 {
        assert(looks.take(j).drop_last() =~= looks.take(i));
    }
}

proof fn lemma_dates_between(looks: Seq<Look>, i: int, j: int, k: int)
    requires
        0 <= i <= k <= j < looks.len(),
        looks[i].today == looks[j].today,
        forall|a: int, b: int|
            0 <= a <= b < looks.len() ==> text_le(
                (#[trigger] looks[a]).today,
                (#[trigger] looks[b]).today,
            ),
    ensures
        looks[k].today == looks[i].today,
{
    assert(text_le(looks[i].today, looks[k].today));
    assert(text_le(looks[k].today, looks[j].today));
    law_text_order(looks[i].today, looks[k].today, looks[j].today);
}

/// Where the date is never set back, at most one daily sync succeeds on a date.
pub proof fn law_once_per_day(looks: Seq<Look>, i: int, j: int)
    requires
        0 <= i < j < looks.len(),
        forall|a: int, b: int|
            0 <= a <= b < looks.len() ==> text_le(
                (#[trigger] looks[a]).today,
                (#[trigger] looks[b]).today,
            ),
        runs_at(looks, i),
        looks[i].succeeded,
        runs_at(looks, j),
    ensures
        looks[i].today != looks[j].today,
{
    if looks[i].today == looks[j].today {
        assert forall|k: int| i <= k <= j implies (#[trigger] looks[k]).today == looks[i].today by {
            lemma_dates_between(looks, i, j, k);
        }
        law_daily_sync(looks, i, j);
    }
}

/// Times of day are ordered as their texts are.
pub proof fn law_times_are_ordered_as_texts(h: int, m: int, other_h: int, other_m: int)
    requires
        0 <= h < 100,
        0 <= m < 60,
        0 <= other_h < 100,
        0 <= other_m < 60,
    ensures
        text_le(time_of_day(h, m), time_of_day(other_h, other_m)) == (60 * h + m <= 60 * other_h
            + other_m),
{
    let a = time_of_day(h, m);
    let b = time_of_day(other_h, other_m);
    reveal_with_fuel(text_le, 6);
    assert(a.len() == 5 && b.len() == 5);
    assert(a[0] == (48 + h / 10) as char && a[1] == (48 + h % 10) as char && a[2] == ':');
    assert(a[3] == (48 + m / 10) as char && a[4] == (48 + m % 10) as char);
    assert(b[0] == (48 + other_h / 10) as char && b[1] == (48 + other_h % 10) as char && b[2]
        == ':');
    assert(b[3] == (48 + other_m / 10) as char && b[4] == (48 + other_m % 10) as char);
    let a1 = a.drop_first();
    let b1 = b.drop_first();
    let a2 = a1.drop_first();
    let b2 = b1.drop_first();
    let a3 = a2.drop_first();
    let b3 = b2.drop_first();
    let a4 = a3.drop_first();
    let b4 = b3.drop_first();
    assert(a4.drop_first().len() == 0 && b4.drop_first().len() == 0);
    assert(a1[0] == a[1] && b1[0] == b[1]);
    assert(a2[0] == a[2] && b2[0] == b[2]);
    assert(a3[0] == a[3] && b3[0] == b[3]);
    assert(a4[0] == a[4] && b4[0] == b[4]);
}

/// On a day without a daily sync yet, it is due from its time on until
/// midnight, by the minutes on the clock.
pub proof fn law_due_from_its_time_on(
    cfg: AppConfig,
    last_sync_date: Seq<char>,
    here: Moment,
    today: Seq<char>,
    time: Seq<char>,
    hours: int,
    minutes: int,
)
    requires
        cfg.auto_sync_enabled,
        last_sync_date != today,
        cfg.auto_sync_time@ == time_of_day(hours, minutes),
        0 <= hours < 24,
        0 <= minutes < 60,
        reads_clock(here, today, time),
    ensures
        is_due(cfg, last_sync_date, today, time) == (60 * hours + minutes <= minute_of_day(here)),
{
    let now = minute_of_day(here);
    law_times_are_ordered_as_texts(hours, minutes, now / 60, now % 60);
}

}
