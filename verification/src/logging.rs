//! The log: where it is, what a line looks like, and when it is rotated.
use vstd::prelude::*;

use crate::decimal;
use crate::places;
use crate::places::Base;
use crate::places::Place;
use crate::places::PlaceV;
use crate::places::Platform;
use crate::places::Surroundings;
use crate::text;

verus! {

/// A log that has grown past this is set aside.
pub const MAX_LOG_BYTES: u64 = 8388608;

/// The user's own folder, else the folder that the application runs in.
pub open spec fn home_or_here(s: Surroundings) -> PlaceV {
    match places::home_v(s) {
        Some(h) => places::at(h),
        None => places::below(places::at(Base::Here), "."@),
    }
}

pub open spec fn log_dir_v(s: Surroundings) -> PlaceV {
    match s.platform {
        Platform::MacOs => places::below(
            places::below(places::below(home_or_here(s), "Library"@), "Logs"@),
            "ClifPad"@,
        ),
        Platform::Windows => places::below(
            places::below(
                if s.local_app_data {
                    places::at(Base::LocalAppData)
                } else {
                    home_or_here(s)
                },
                "clif-pad"@,
            ),
            "logs"@,
        ),
        Platform::Other => places::below(
            places::below(
                if s.xdg_state_home {
                    places::at(Base::XdgStateHome)
                } else {
                    places::below(places::below(home_or_here(s), ".local"@), "state"@)
                },
                "clif-pad"@,
            ),
            "logs"@,
        ),
    }
}

fn home_place(s: &Surroundings) -> (r: Place)
    ensures
        r@ == home_or_here(*s),
{
    match places::home_dir(s) {
        Some(h) => Place::at(h),
        None => Place::at(Base::Here).join("."),
    }
}

/// The folder of the log.
pub fn log_dir(s: &Surroundings) -> (r: Place)
    ensures
        r@ == log_dir_v(*s),
{
    match s.platform {
        Platform::MacOs => home_place(s).join("Library").join("Logs").join("ClifPad"),
        Platform::Windows => {
            let base = if s.local_app_data {
                Place::at(Base::LocalAppData)
            } else {
                home_place(s)
            };
            base.join("clif-pad").join("logs")
        },
        Platform::Other => {
            let base = if s.xdg_state_home {
                Place::at(Base::XdgStateHome)
            } else {
                home_place(s).join(".local").join("state")
            };
            base.join("clif-pad").join("logs")
        },
    }
}

/// The log.
pub fn log_path(s: &Surroundings) -> (r: Place)
    ensures
        r@ == places::below(log_dir_v(*s), "clifpad.log"@),
{
    log_dir(s).join("clifpad.log")
}

/// Where a log is set aside.
pub fn rotated_path(s: &Surroundings) -> (r: Place)
    ensures
        r@ == places::below(log_dir_v(*s), "clifpad.log.1"@),
{
    log_dir(s).join("clifpad.log.1")
}

/// The log has grown enough to be set aside.
pub fn needs_rotation(bytes: u64) -> (r: bool)
    ensures
        r == (bytes > MAX_LOG_BYTES),
{
    bytes > MAX_LOG_BYTES
}

pub open spec fn digits(n: nat, w: nat) -> Seq<char> {
    decimal::pad_left(decimal::dec(n), '0', w)
}

/// The time of day, as hours, minutes, seconds and thousandths.
pub open spec fn time_v(secs: nat, millis: nat) -> Seq<char> {
    digits(secs / 3600 % 24, 2) + ":"@ + digits(secs / 60 % 60, 2) + ":"@ + digits(secs % 60, 2)
        + "."@ + digits(millis, 3)
}

fn padded(n: u64, w: usize) -> (r: String)
    ensures
        r@ == digits(n as nat, w as nat),
{
    decimal::padded(decimal::dec_u64(n).as_str(), '0', w)
}

/// The time of day in UTC, of a time in seconds since the epoch and thousandths.
pub fn timestamp(secs: u64, millis: u32) -> (r: String)
    ensures
        r@ == time_v(secs as nat, millis as nat),
{
    let mut s = padded(secs / 3600 % 24, 2);
    s.append(":");
    s.append(padded(secs / 60 % 60, 2).as_str());
    s.append(":");
    s.append(padded(secs % 60, 2).as_str());
    s.append(".");
    s.append(padded(millis as u64, 3).as_str());
    s
}

/// A line of the log.
pub fn log(secs: u64, millis: u32, component: &str, msg: &str) -> (r: String)
    ensures
        r@ == "["@ + time_v(secs as nat, millis as nat) + "] ["@ + component@ + "] "@ + msg@
            + "\n"@,
{
    let mut s = text::cat("[", timestamp(secs, millis).as_str());
    s.append("] [");
    s.append(component);
    s.append("] ");
    s.append(msg);
    s.append("\n");
    s
}

/// What the log says when the application starts.
pub fn start_message(pid: u32, epoch: u64, version: &str) -> (r: String)
    ensures
        r@ == "=== ClifPad start — pid "@ + decimal::dec(pid as nat) + " · epoch "@
            + decimal::dec(epoch as nat) + " · v"@ + version@ + " ==="@,
{
    let mut s = text::cat("=== ClifPad start — pid ", decimal::dec_u64(pid as u64).as_str());
    s.append(" · epoch ");
    s.append(decimal::dec_u64(epoch).as_str());
    s.append(" · v");
    s.append(version);
    s.append(" ===");
    s
}

/// Where the log is: below the folder that the platform names for it, else below the user's own.
pub proof fn law_log_places(s: Surroundings)
    ensures
        s.platform == Platform::MacOs && s.home ==> log_dir_v(s).base == Base::Home && log_dir_v(
            s,
        ).names == seq!["Library"@, "Logs"@, "ClifPad"@],
        s.platform == Platform::Windows && s.local_app_data ==> log_dir_v(s).base
            == Base::LocalAppData && log_dir_v(s).names == seq!["clif-pad"@, "logs"@],
        s.platform == Platform::Windows && !s.local_app_data && s.home ==> log_dir_v(s).base
            == Base::Home && log_dir_v(s).names == seq!["clif-pad"@, "logs"@],
        s.platform == Platform::Other && s.xdg_state_home ==> log_dir_v(s).base
            == Base::XdgStateHome && log_dir_v(s).names == seq!["clif-pad"@, "logs"@],
        s.platform == Platform::Other && !s.xdg_state_home && s.home ==> log_dir_v(s).base
            == Base::Home && log_dir_v(s).names == seq![
            ".local"@,
            "state"@,
            "clif-pad"@,
            "logs"@,
        ],
        s.platform == Platform::MacOs && !s.home && !s.user_profile ==> log_dir_v(s).base
            == Base::Here && log_dir_v(s).names == seq!["."@, "Library"@, "Logs"@, "ClifPad"@],
{
    let n = log_dir_v(s).names;
    assert(n =~= seq!["Library"@, "Logs"@, "ClifPad"@] || n =~= seq!["clif-pad"@, "logs"@] || n
        =~= seq![".local"@, "state"@, "clif-pad"@, "logs"@] || n =~= seq![
        "."@,
        "Library"@,
        "Logs"@,
        "ClifPad"@,
    ] || !s.home);
}

/// The time of a log line is the time of day: hours, minutes and seconds of a day, and it tells the
/// second of the day.
pub proof fn law_time_of_day(h: nat, m: nat, s: nat, days: nat, millis: nat)
    requires
        h < 24,
        m < 60,
        s < 60,
    ensures
        time_v(days * 86400 + h * 3600 + m * 60 + s, millis) == decimal::pad_left(
            decimal::dec(h),
            '0',
            2,
        ) + ":"@ + decimal::pad_left(decimal::dec(m), '0', 2) + ":"@ + decimal::pad_left(
            decimal::dec(s),
            '0',
            2,
        ) + "."@ + decimal::pad_left(decimal::dec(millis), '0', 3),
{
    let t = days * 86400 + h * 3600 + m * 60 + s;
    assert(t / 3600 == days * 24 + h);
    assert((days * 24 + h) % 24 == h);
    assert(t / 60 == days * 1440 + h * 60 + m);
    assert((days * 1440 + h * 60 + m) % 60 == m);
    assert(t % 60 == s);
}

} // verus!
