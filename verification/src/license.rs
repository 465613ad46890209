//! The trial period and the license key: what status the user has, and
//! whether the app may be used.
//!
//! A trial lasts fourteen days from the first run. A validated license is
//! trusted for two days, and for thirty more days while it cannot be
//! checked again.

use vstd::prelude::*;
use crate::text::{chars_of, copy_string, decimal, decimal_chars, str_then, string_of};

verus! {

broadcast use vstd::string::group_string_axioms;

pub const TRIAL_DAYS: u64 = 14;

/// A license is checked again after this many days.
pub const VALIDATION_CACHE_DAYS: u64 = 2;

/// A license that cannot be checked is trusted for this many days more.
pub const OFFLINE_GRACE_DAYS: u64 = 30;

pub const SECONDS_PER_DAY: u64 = 86400;

/// What the app remembers about the trial and the license.
pub struct LicenseData {
    /// Timestamp of first run (for trial)
    pub first_run: Option<u64>,
    /// License key from Lemon Squeezy
    pub license_key: Option<String>,
    /// Last successful validation timestamp
    pub last_validated: Option<u64>,
    /// Whether the license was valid at last check
    pub is_valid: bool,
    /// Customer name (from validation response)
    pub customer_name: Option<String>,
}

pub enum LicenseStatus {
    /// In trial period, X days remaining
    Trial { days_left: u64 },
    /// Trial expired, needs license
    TrialExpired,
    /// Valid license (possibly cached)
    Valid { customer_name: Option<String> },
    /// License invalid or expired subscription
    Invalid,
}

/// A license status with its text seen as characters.
pub enum StatusView {
    Trial(u64),
    TrialExpired,
    Valid(Option<Seq<char>>),
    Invalid,
}

pub open spec fn opt_view(o: Option<String>) -> Option<Seq<char>> {
    match o {
        Some(s) => Some(s@),
        None => None,
    }
}

impl View for LicenseStatus {
    type V = StatusView;

    open spec fn view(&self) -> StatusView {
        match self {
            LicenseStatus::Trial { days_left } => StatusView::Trial(*days_left),
            LicenseStatus::TrialExpired => StatusView::TrialExpired,
            LicenseStatus::Valid { customer_name } => StatusView::Valid(opt_view(*customer_name)),
            LicenseStatus::Invalid => StatusView::Invalid,
        }
    }
}

/// Whole days from `timestamp` to `now`; none when `timestamp` is later.
pub open spec fn days_between(now: u64, timestamp: u64) -> u64 {
    if now > timestamp {
        ((now - timestamp) / (SECONDS_PER_DAY as int)) as u64
    } else {
        0
    }
}

/// The license `t` after the key `key` was checked at time `now` with the
/// answer `online` (validity and customer name, or why no answer came):
/// the key is stored and the trial's start kept; an answer is recorded
/// with the time; without one the last answer stays.
pub open spec fn checked(
    l: LicenseData,
    key: Seq<char>,
    online: Result<(bool, Option<String>), String>,
    now: u64,
    t: LicenseData,
) -> bool {
    &&& t.license_key is Some
    &&& t.license_key->0@ == key
    &&& t.first_run == l.first_run
    &&& match online {
        Ok((valid, name)) => {
            &&& t.is_valid == valid
            &&& t.last_validated == Some(now)
            &&& opt_view(t.customer_name) == opt_view(name)
        },
        Err(_) => {
            &&& t.is_valid == l.is_valid
            &&& t.last_validated == l.last_validated
            &&& opt_view(t.customer_name) == opt_view(l.customer_name)
        },
    }
}

/// The stored key is due to be checked again at time `now`: its last check
/// is more than two days old.
pub open spec fn revalidation_due(l: LicenseData, now: u64) -> bool {
    l.license_key is Some && l.last_validated is Some && days_between(now, l.last_validated->0)
        > VALIDATION_CACHE_DAYS
}

/// The status of the stored license data at time `now`.
pub open spec fn status_of(l: LicenseData, now: u64) -> StatusView {
    if l.license_key is Some {
        if l.is_valid && l.last_validated is Some && days_between(now, l.last_validated->0)
            <= VALIDATION_CACHE_DAYS + OFFLINE_GRACE_DAYS {
            StatusView::Valid(opt_view(l.customer_name))
        } else {
            StatusView::Invalid
        }
    } else {
        match l.first_run {
            Some(first_run) => if days_between(now, first_run) < TRIAL_DAYS {
                StatusView::Trial((TRIAL_DAYS - days_between(now, first_run)) as u64)
            } else {
                StatusView::TrialExpired
            },
            None => StatusView::Trial(TRIAL_DAYS),
        }
    }
}

/// Whether a status lets the app be used.
pub open spec fn usable(s: StatusView) -> bool {
    s is Trial || s is Valid
}

/// The seconds since 1970 on the system clock; a clock set before 1970
/// reads as 0.
#[verifier::external_body]
fn now() -> u64 {
    std::time::SystemTime::now()
        .duration_since(std::time::UNIX_EPOCH)
        .map(|d| d.as_secs())
        .unwrap_or(0)
}

fn copy_opt_string(o: &Option<String>) -> (r: Option<String>)
    ensures
        opt_view(r) == opt_view(*o),
{
    match o {
        Some(s) => Some(copy_string(s)),
        None => None,
    }
}

/// The home directory as `dirs::home_dir` finds it (from `$HOME`, or the
/// user database), its path converted to text. It depends on the
/// environment, so nothing is stated of it.
#[verifier::external_body]
fn home_dir() -> Option<String> {
    dirs::home_dir().map(|p| p.to_string_lossy().into_owned())
}

/// `path` with `component` after it, a slash between them unless `path`
/// is empty or already ends with one (as `PathBuf::push` puts a relative
/// component).
pub open spec fn joined_path(path: Seq<char>, component: Seq<char>) -> Seq<char> {
    if path.len() == 0 || path.last() == '/' {
        path + component
    } else {
        path + seq!['/'] + component
    }
}

/// Where the license file's directory is: `.config/gg` in the home
/// directory, or in the present directory when there is no home.
pub open spec fn config_dir_of(home: Option<Seq<char>>) -> Seq<char> {
    let base = match home {
        Some(h) => h,
        None => "."@,
    };
    joined_path(joined_path(base, ".config"@), "gg"@)
}

/// `path` with `component` after it, a slash between them when needed.
pub fn join_path(path: &str, component: &str) -> (r: String)
    ensures
        r@ == joined_path(path@, component@),
{
    let p = chars_of(path);
    if p.len() == 0 || p[p.len() - 1] == '/' {
        let mut v = p;
        crate::text::extend_chars(&mut v, &chars_of(component));
        string_of(&v)
    } else {
        let mut v = p;
        v.push('/');
        crate::text::extend_chars(&mut v, &chars_of(component));
        string_of(&v)
    }
}

impl LicenseData {
    /// No trial started and no license.
    pub fn new() -> (r: LicenseData)
        ensures
            r.first_run is None,
            r.license_key is None,
            r.last_validated is None,
            !r.is_valid,
            r.customer_name is None,
    {
        LicenseData {
            first_run: None,
            license_key: None,
            last_validated: None,
            is_valid: false,
            customer_name: None,
        }
    }

    /// The directory of the license file, given the home directory.
    pub fn config_dir_in(home: Option<String>) -> (r: String)
        ensures
            r@ == config_dir_of(opt_view(home)),
    {
        let base = match home {
            Some(h) => h,
            None => string_of(&chars_of(".")),
        };
        let config = join_path(base.as_str(), ".config");
        join_path(config.as_str(), "gg")
    }

    /// The directory of the license file.
    pub fn config_dir() -> (r: String)
        ensures
            exists|home: Option<Seq<char>>| r@ == config_dir_of(home),
    {
        let home = home_dir();
        Self::config_dir_in(home)
    }

    /// The license file: `license.json` in its directory.
    pub fn config_path() -> (r: String)
        ensures
            exists|home: Option<Seq<char>>|
                r@ == joined_path(config_dir_of(home), "license.json"@),
    {
        let dir = Self::config_dir();
        join_path(dir.as_str(), "license.json")
    }

    /// Whole days from `timestamp` to `now`.
    pub fn days_between(now: u64, timestamp: u64) -> (r: u64)
        ensures
            r == days_between(now, timestamp),
    {
        if now > timestamp {
            (now - timestamp) / SECONDS_PER_DAY
        } else {
            0
        }
    }

    /// Whole days from `timestamp` to the present.
    pub fn days_since(timestamp: u64) -> (r: u64)
        ensures
            exists|t: u64| r == days_between(t, timestamp),
    {
        Self::days_between(now(), timestamp)
    }

    /// Starts the trial at `now` if it has not started, or restarts it if
    /// its start lies in the future (the clock was tampered with). Returns
    /// whether the data changed and should be saved.
    pub fn init_trial_at(&mut self, now: u64) -> (changed: bool)
        ensures
            changed == (old(self).first_run is None || old(self).first_run->0 > now),
            changed ==> final(self).first_run == Some(now),
            !changed ==> final(self).first_run == old(self).first_run,
            final(self).license_key == old(self).license_key,
            final(self).last_validated == old(self).last_validated,
            final(self).is_valid == old(self).is_valid,
            final(self).customer_name == old(self).customer_name,
    {
        let needs_reset = match self.first_run {
            None => true,
            Some(ts) => ts > now,
        };
        if needs_reset {
            self.first_run = Some(now);
        }
        needs_reset
    }

    /// Starts or restarts the trial at the present time; see `init_trial_at`.
    pub fn init_trial(&mut self) -> (changed: bool)
        ensures
            exists|t: u64|
                changed == (old(self).first_run is None || old(self).first_run->0 > t) && (changed
                    ==> final(self).first_run == Some(t)),
            !changed ==> final(self).first_run == old(self).first_run,
            final(self).license_key == old(self).license_key,
            final(self).last_validated == old(self).last_validated,
            final(self).is_valid == old(self).is_valid,
            final(self).customer_name == old(self).customer_name,
    {
        let t = now();
        self.init_trial_at(t)
    }

    /// The license status at time `now`.
    pub fn status_at(&self, now: u64) -> (r: LicenseStatus)
        ensures
            r@ == status_of(*self, now),
    {
        if self.license_key.is_some() {
            if self.is_valid {
                if let Some(last) = self.last_validated {
                    let days_since_validation = Self::days_between(now, last);
                    if days_since_validation <= VALIDATION_CACHE_DAYS + OFFLINE_GRACE_DAYS {
                        return LicenseStatus::Valid {
                            customer_name: copy_opt_string(&self.customer_name),
                        };
                    }
                }
            }
            return LicenseStatus::Invalid;
        }
        if let Some(first_run) = self.first_run {
            let days_used = Self::days_between(now, first_run);
            if days_used < TRIAL_DAYS {
                LicenseStatus::Trial { days_left: TRIAL_DAYS - days_used }
            } else {
                LicenseStatus::TrialExpired
            }
        } else {
            LicenseStatus::Trial { days_left: TRIAL_DAYS }
        }
    }

    /// The license status at the present time.
    pub fn status(&self) -> (r: LicenseStatus)
        ensures
            exists|t: u64| r@ == status_of(*self, t),
    {
        self.status_at(now())
    }

    /// Whether the app may be used at time `now`: during the trial or with
    /// a valid license.
    pub fn can_use_at(&self, now: u64) -> (r: bool)
        ensures
            r == usable(status_of(*self, now)),
    {
        match self.status_at(now) {
            LicenseStatus::Trial { .. } => true,
            LicenseStatus::Valid { .. } => true,
            LicenseStatus::TrialExpired => false,
            LicenseStatus::Invalid => false,
        }
    }

    /// Whether the app may be used now.
    pub fn can_use(&self) -> (r: bool)
        ensures
            exists|t: u64| r == usable(status_of(*self, t)),
    {
        self.can_use_at(now())
    }

    /// Records a license key and the answer of the online check for it,
    /// made at time `now`. With an answer the key's validity, the time and
    /// the customer's name are stored, and the key is accepted when valid.
    /// Without one (the check could not be made) a key that was valid at its
    /// last check is still accepted.
    pub fn validate_license(
        &mut self,
        key: &str,
        online: Result<(bool, Option<String>), String>,
        now: u64,
    ) -> (r: Result<(), String>)
        ensures
            checked(*old(self), key@, online, now, *final(self)),
            match online {
                Ok((valid, name)) => {
                    &&& (valid ==> r is Ok)
                    &&& (!valid ==> r is Err && r->Err_0@
                        == "License key is invalid or subscription expired"@)
                },
                Err(e) => {
                    &&& (old(self).is_valid && old(self).last_validated is Some ==> r is Ok)
                    &&& (!(old(self).is_valid && old(self).last_validated is Some) ==> r is Err
                        && r->Err_0@ == "Could not validate license: "@ + e@)
                },
            },
    {
        self.license_key = Some(string_of(&chars_of(key)));
        match online {
            Ok((valid, customer_name)) => {
                self.is_valid = valid;
                self.last_validated = Some(now);
                self.customer_name = customer_name;
                if valid {
                    Ok(())
                } else {
                    Err(string_of(&chars_of("License key is invalid or subscription expired")))
                }
            },
            Err(e) => {
                if self.is_valid && self.last_validated.is_some() {
                    Ok(())
                } else {
                    Err(str_then("Could not validate license: ", &chars_of(e.as_str())))
                }
            },
        }
    }

    /// The license key to check again at time `now`: the stored key, once
    /// its last check is more than two days old.
    pub fn maybe_revalidate(&self, now: u64) -> (r: Option<String>)
        ensures
            opt_view(r) == (if revalidation_due(*self, now) {
                opt_view(self.license_key)
            } else {
                None
            }),
    {
        if let Some(key) = &self.license_key {
            if let Some(last) = self.last_validated {
                if Self::days_between(now, last) > VALIDATION_CACHE_DAYS {
                    return Some(copy_string(key));
                }
            }
        }
        None
    }
}

/// The text of the license status shown in the help menu at time `now`,
/// and whether it tells of a valid license.
pub open spec fn status_line_of(l: LicenseData, now: u64) -> (Seq<char>, bool) {
    match status_of(l, now) {
        StatusView::Trial(days_left) => (decimal(days_left as nat) + " days left - L to purchase"@, false),
        StatusView::Valid(name) => (
            match name {
                Some(n) => n,
                None => "Licensed"@,
            },
            true,
        ),
        StatusView::TrialExpired => ("Trial expired - L to purchase"@, false),
        StatusView::Invalid => ("License invalid - L to renew"@, false),
    }
}

/// Formats the license status at time `now` for the help menu.
pub fn status_line_at(license: &LicenseData, now: u64) -> (r: (String, bool))
    ensures
        (r.0@, r.1) == status_line_of(*license, now),
{
    match license.status_at(now) {
        LicenseStatus::Trial { days_left } => {
            let mut v = decimal_chars(days_left);
            let tail = chars_of(" days left - L to purchase");
            crate::text::extend_chars(&mut v, &tail);
            (string_of(&v), false)
        },
        LicenseStatus::Valid { customer_name } => {
            let name = match customer_name {
                Some(n) => n,
                None => string_of(&chars_of("Licensed")),
            };
            (name, true)
        },
        LicenseStatus::TrialExpired => (string_of(&chars_of("Trial expired - L to purchase")), false),
        LicenseStatus::Invalid => (string_of(&chars_of("License invalid - L to renew")), false),
    }
}

/// Formats the license status for display in help menu.
pub fn status_line(license: &LicenseData) -> (r: (String, bool))
    ensures
        exists|t: u64| (r.0@, r.1) == status_line_of(*license, t),
{
    status_line_at(license, now())
}

// ---------------------------------------------------------------------------
// Laws
// ---------------------------------------------------------------------------

/// A trial never has more than fourteen days left, nor none: when its days
/// run out it is reported expired instead.
pub proof fn law_trial_days_left(l: LicenseData, now: u64)
    ensures
        status_of(l, now) matches StatusView::Trial(d) ==> 1 <= d <= TRIAL_DAYS,
{
}

/// A license key that checked valid is honoured for thirty-two days after
/// the check, and not a day longer.
pub proof fn law_license_grace(l: LicenseData, now: u64)
    requires
        l.license_key is Some,
        l.is_valid,
        l.last_validated is Some,
    ensures
        status_of(l, now) is Valid <==> days_between(now, l.last_validated->0) <= 32,
{
}

/// Once a license key is stored, the trial no longer counts: the status is
/// valid or invalid whatever the trial's start.
pub proof fn law_key_overrides_trial(l: LicenseData, now: u64)
    requires
        l.license_key is Some,
    ensures
        status_of(l, now) is Valid || status_of(l, now) is Invalid,
{
}

/// A trial that starts now has all of its fourteen days left, so a first
/// run may always use the app.
pub proof fn law_fresh_trial(l: LicenseData, now: u64)
    requires
        l.license_key is None,
        l.first_run == Some(now),
    ensures
        status_of(l, now) == StatusView::Trial(TRIAL_DAYS),
        usable(status_of(l, now)),
{
}

/// Checking the license again in the background: when the stored key is
/// due, it is checked and the license afterwards (`t`) is what checking
/// that key makes of it, the result dropped; otherwise nothing is checked
/// and the license stays as it was. Either way the key and the trial's
/// start are kept, and without an answer (offline) the status at any time
/// is the same as before.
pub proof fn law_revalidation(
    l: LicenseData,
    now: u64,
    online: Result<(bool, Option<String>), String>,
    t: LicenseData,
)
    requires
        if revalidation_due(l, now) {
            checked(l, l.license_key->0@, online, now, t)
        } else {
            t == l
        },
    ensures
        opt_view(t.license_key) == opt_view(l.license_key),
        t.first_run == l.first_run,
        revalidation_due(l, now) && online is Ok ==> t.last_validated == Some(now),
        online is Err || !revalidation_due(l, now) ==> forall|x: u64|
            #[trigger] status_of(t, x) == status_of(l, x),
{
}

/// The status line tells the status at the same moment: the days left of
/// a trial, the customer's name (or "Licensed") for a valid license, and
/// the expired and invalid notices; it reads as licensed exactly when the
/// license is valid.
pub proof fn law_status_line_tells_status(l: LicenseData, now: u64)
    ensures
        match status_of(l, now) {
            StatusView::Trial(d) => status_line_of(l, now) == (
                decimal(d as nat) + " days left - L to purchase"@,
                false,
            ),
            StatusView::Valid(Some(name)) => status_line_of(l, now) == (name, true),
            StatusView::Valid(None) => status_line_of(l, now) == ("Licensed"@, true),
            StatusView::TrialExpired => status_line_of(l, now) == ("Trial expired - L to purchase"@, false),
            StatusView::Invalid => status_line_of(l, now) == ("License invalid - L to renew"@, false),
        },
        status_line_of(l, now).1 <==> status_of(l, now) is Valid,
{
}

} // verus!
