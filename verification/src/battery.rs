//! Battery state read from a power-supply uevent record: key/value lines
//! carrying charge figures and a status word.

use vstd::prelude::*;
use crate::options::{lower_of, lowercase};
use crate::text::{
    all_digits, digits_val, index_of_from, lemma_index_of_from, lines_from, split_lines, str_eq,
    trim_spec, trimmed,
};
use vstd::string::StrSliceExecFns;

verus! {

/// A battery's charging state.
#[derive(Debug, Clone, Copy, PartialEq, Eq, Hash, Structural)]
pub enum BatteryStatus {
    Unknown,
    Discharging,
    Charging,
    NotCharging,
    Full,
}

/// The status a lowercased status word names.
pub open spec fn status_of(s: Seq<char>) -> Option<BatteryStatus> {
    if s == "unknown"@ {
        Some(BatteryStatus::Unknown)
    } else if s == "discharging"@ {
        Some(BatteryStatus::Discharging)
    } else if s == "charging"@ {
        Some(BatteryStatus::Charging)
    } else if s == "not charging"@ {
        Some(BatteryStatus::NotCharging)
    } else if s == "full"@ {
        Some(BatteryStatus::Full)
    } else {
        None
    }
}

impl BatteryStatus {
    /// Parse an already-lowercased status word.
    pub fn from_folded(s: &str) -> (r: Result<BatteryStatus, ()>)
        ensures
            r == match status_of(s@) {
                Some(v) => Ok::<BatteryStatus, ()>(v),
                None => Err::<BatteryStatus, ()>(()),
            },
    {
        if str_eq(s, "unknown") {
            Ok(BatteryStatus::Unknown)
        } else if str_eq(s, "discharging") {
            Ok(BatteryStatus::Discharging)
        } else if str_eq(s, "charging") {
            Ok(BatteryStatus::Charging)
        } else if str_eq(s, "not charging") {
            Ok(BatteryStatus::NotCharging)
        } else if str_eq(s, "full") {
            Ok(BatteryStatus::Full)
        } else {
            Err(())
        }
    }

    /// Parse a status word case-insensitively.
    pub fn from_str(s: &str) -> (r: Result<BatteryStatus, ()>)
        ensures
            r == match status_of(lower_of(s@)) {
                Some(v) => Ok::<BatteryStatus, ()>(v),
                None => Err::<BatteryStatus, ()>(()),
            },
    {
        let l = lowercase(s);
        BatteryStatus::from_folded(l.as_str())
    }

    /// The status's display wording.
    pub fn display_string(&self) -> (r: String)
        ensures
            match self {
                BatteryStatus::Unknown => r@ == "Unknown"@,
                BatteryStatus::Discharging => r@ == "Discharging"@,
                BatteryStatus::Charging => r@ == "Charging"@,
                BatteryStatus::NotCharging => r@ == "Not charging"@,
                BatteryStatus::Full => r@ == "Full"@,
            },
    {
        match self {
            BatteryStatus::Unknown => "Unknown".to_owned(),
            BatteryStatus::Discharging => "Discharging".to_owned(),
            BatteryStatus::Charging => "Charging".to_owned(),
            BatteryStatus::NotCharging => "Not charging".to_owned(),
            BatteryStatus::Full => "Full".to_owned(),
        }
    }
}

/// One battery's readings.
#[derive(Debug, Clone, PartialEq)]
pub struct Battery {
    pub name: String,
    pub remaining: u32,
    pub actual_max: u32,
    pub factory_max: u32,
    pub status: BatteryStatus,
}

/// A raw uevent entry: a key and the undecoded bytes of its value.
#[derive(Debug, Clone)]
pub struct UEventEntryRaw(pub String, pub Vec<u8>);

/// A decoded uevent entry: a key and its trimmed value.
#[derive(Debug, Clone)]
pub struct UEventEntry(pub String, pub String);

/// The key/value reading of one uevent line: the text before the first
/// `=`, and the text between the first and second `=` (or the end),
/// trimmed.  A line without `=` carries no entry.
pub open spec fn entry_of(line: Seq<char>) -> Option<(Seq<char>, Seq<char>)> {
    let i = index_of_from(line, '=', 0);
    if 0 <= i < line.len() {
        Some(
            (
                line.subrange(0, i),
                trim_spec(line.subrange(i + 1, index_of_from(line, '=', i + 1))),
            ),
        )
    } else {
        None
    }
}

/// Decode one uevent line.
pub fn parse_entry(line: &str) -> (r: Option<UEventEntry>)
    ensures
        match r {
            Some(e) => entry_of(line@) is Some && e.0@ == (entry_of(line@)->0).0 && e.1@ == (
            entry_of(line@)->0).1,
            None => entry_of(line@) is None,
        },
{
    let n: usize = line.unicode_len();
    let mut i: usize = 0;
    loop
        invariant_except_break
            n == line@.len(),
            i <= n,
            forall|t: int| 0 <= t < i ==> line@[t] != '=',
        ensures
            n == line@.len(),
            i <= n,
            forall|t: int| 0 <= t < i ==> line@[t] != '=',
            i == n || line@[i as int] == '=',
        decreases n - i,
    {
        if i >= n {
            break;
        }
        if line.get_char(i) == '=' {
            break;
        }
        i += 1;
    }
    proof {
        lemma_index_of_from(line@, '=', 0, i as int);
    }
    if i == n {
        return None;
    }
    let mut j: usize = i + 1;
    loop
        invariant_except_break
            n == line@.len(),
            i + 1 <= j <= n,
            forall|t: int| i + 1 <= t < j ==> line@[t] != '=',
        ensures
            n == line@.len(),
            i + 1 <= j <= n,
            forall|t: int| i + 1 <= t < j ==> line@[t] != '=',
            j == n || line@[j as int] == '=',
        decreases n - j,
    {
        if j >= n {
            break;
        }
        if line.get_char(j) == '=' {
            break;
        }
        j += 1;
    }
    proof {
        lemma_index_of_from(line@, '=', i + 1, j as int);
    }
    let key = line.substring_char(0, i).to_owned();
    let val = trimmed(line.substring_char(i + 1, j));
    Some(UEventEntry(key, val))
}

/// The decimal `u32` a value string denotes, when it does.
pub open spec fn u32_of(v: Seq<char>) -> Option<u32> {
    if v.len() > 0 && all_digits(v) && digits_val(v) <= u32::MAX {
        Some(digits_val(v) as u32)
    } else {
        None
    }
}

/// The partial reading a uevent scan has collected.
pub struct UEventScan {
    pub status: Option<BatteryStatus>,
    pub remaining: Option<u32>,
    pub actual_max: Option<u32>,
    pub factory_max: Option<u32>,
    /// A recognized numeric field failed to parse.
    pub failed: bool,
}

/// The empty reading.
pub open spec fn empty_scan() -> UEventScan {
    UEventScan { status: None, remaining: None, actual_max: None, factory_max: None, failed: false }
}

/// All four readings are present.
pub open spec fn scan_complete(a: UEventScan) -> bool {
    a.status is Some && a.remaining is Some && a.actual_max is Some && a.factory_max is Some
}

/// One line's effect on the reading: a recognized key overwrites its
/// field, an unrecognized status word reads as unknown, an unparsable
/// number marks the scan failed, anything else changes nothing.
pub open spec fn apply_line(a: UEventScan, line: Seq<char>) -> UEventScan {
    match entry_of(line) {
        None => a,
        Some(kv) => {
            if kv.0 == "POWER_SUPPLY_STATUS"@ {
                UEventScan {
                    status: Some(
                        match status_of(lower_of(kv.1)) {
                            Some(st) => st,
                            None => BatteryStatus::Unknown,
                        },
                    ),
                    ..a
                }
            } else if kv.0 == "POWER_SUPPLY_ENERGY_NOW"@ || kv.0 == "POWER_SUPPLY_CHARGE_NOW"@ {
                match u32_of(kv.1) {
                    Some(x) => UEventScan { remaining: Some(x), ..a },
                    None => UEventScan { failed: true, ..a },
                }
            } else if kv.0 == "POWER_SUPPLY_ENERGY_FULL"@ || kv.0 == "POWER_SUPPLY_CHARGE_FULL"@ {
                match u32_of(kv.1) {
                    Some(x) => UEventScan { actual_max: Some(x), ..a },
                    None => UEventScan { failed: true, ..a },
                }
            } else if kv.0 == "POWER_SUPPLY_ENERGY_FULL_DESIGN"@ || kv.0
                == "POWER_SUPPLY_CHARGE_FULL_DESIGN"@ {
                match u32_of(kv.1) {
                    Some(x) => UEventScan { factory_max: Some(x), ..a },
                    None => UEventScan { failed: true, ..a },
                }
            } else {
                a
            }
        },
    }
}

/// Fold the lines into a reading, stopping as soon as it is complete.
pub open spec fn scan_lines(lines: Seq<Seq<char>>, a: UEventScan) -> UEventScan
    decreases lines.len(),
{
    if lines.len() == 0 {
        a
    } else {
        let a2 = apply_line(a, lines[0]);
        if scan_complete(a2) {
            a2
        } else {
            scan_lines(lines.drop_first(), a2)
        }
    }
}

/// The reading of a whole uevent record.
pub open spec fn uevent_scan(content: Seq<char>) -> UEventScan {
    scan_lines(lines_from(content, 0), empty_scan())
}

impl Battery {
    /// Read a battery's state out of its uevent record.  The result exists
    /// exactly when the scan collected all four readings and every
    /// recognized numeric field parsed.
    pub fn parse_uevent(name: &str, content: &str) -> (r: Option<Battery>)
        ensures
            match r {
                Some(b) => {
                    &&& !uevent_scan(content@).failed
                    &&& scan_complete(uevent_scan(content@))
                    &&& b.name@ == name@
                    &&& Some(b.status) == uevent_scan(content@).status
                    &&& Some(b.remaining) == uevent_scan(content@).remaining
                    &&& Some(b.actual_max) == uevent_scan(content@).actual_max
                    &&& Some(b.factory_max) == uevent_scan(content@).factory_max
                },
                None => uevent_scan(content@).failed || !scan_complete(uevent_scan(content@)),
            },
    {
        let lines = split_lines(content);
        let ghost all = lines.deep_view();
        let mut acc = UEventScan {
            status: None,
            remaining: None,
            actual_max: None,
            factory_max: None,
            failed: false,
        };
        let mut i: usize = 0;
        proof {
            assert(all.skip(0) =~= all);
            assert(acc == empty_scan());
        }
        loop
            invariant_except_break
                all == lines.deep_view(),
                all == lines_from(content@, 0),
                i <= lines@.len(),
                !scan_complete(acc),
                scan_lines(all.skip(i as int), acc) == uevent_scan(content@),
            ensures
                acc == uevent_scan(content@),
            decreases lines@.len() - i,
        {
            if i >= lines.len() {
                proof {
                    assert(all.skip(i as int) =~= Seq::<Seq<char>>::empty());
                }
                break;
            }
            let ghost line_view = all[i as int];
            proof {
                assert(lines@[i as int]@ == all[i as int]);
            }
            let a2 = apply_entry(&acc, &lines[i]);
            proof {
                assert(a2 == apply_line(acc, line_view));
                assert(all.skip(i as int)[0] == line_view);
                assert(all.skip(i as int).drop_first() =~= all.skip(i + 1));
            }
            let done: bool = a2.status.is_some() && a2.remaining.is_some()
                && a2.actual_max.is_some() && a2.factory_max.is_some();
            acc = a2;
            if done {
                break;
            }
            i += 1;
        }
        if acc.failed {
            return None;
        }
        let status = match acc.status {
            Some(st) => st,
            None => {
                return None;
            },
        };
        let remaining = match acc.remaining {
            Some(x) => x,
            None => {
                return None;
            },
        };
        let actual_max = match acc.actual_max {
            Some(x) => x,
            None => {
                return None;
            },
        };
        let factory_max = match acc.factory_max {
            Some(x) => x,
            None => {
                return None;
            },
        };
        Some(Battery { name: name.to_owned(), remaining, actual_max, factory_max, status })
    }
}

/// Apply one line to the reading.
fn apply_entry(a: &UEventScan, line: &String) -> (r: UEventScan)
    ensures
        r == apply_line(*a, line@),
{
    let copied = UEventScan {
        status: a.status,
        remaining: a.remaining,
        actual_max: a.actual_max,
        factory_max: a.factory_max,
        failed: a.failed,
    };
    match parse_entry(line.as_str()) {
        None => copied,
        Some(e) => {
            let UEventEntry(key, val) = e;
            if str_eq(key.as_str(), "POWER_SUPPLY_STATUS") {
                let st = match BatteryStatus::from_str(val.as_str()) {
                    Ok(st) => st,
                    Err(_) => BatteryStatus::Unknown,
                };
                UEventScan { status: Some(st), ..copied }
            } else if str_eq(key.as_str(), "POWER_SUPPLY_ENERGY_NOW") || str_eq(
                key.as_str(),
                "POWER_SUPPLY_CHARGE_NOW",
            ) {
                match crate::text::parse_u32(val.as_str()) {
                    Some(x) => UEventScan { remaining: Some(x), ..copied },
                    None => UEventScan { failed: true, ..copied },
                }
            } else if str_eq(key.as_str(), "POWER_SUPPLY_ENERGY_FULL") || str_eq(
                key.as_str(),
                "POWER_SUPPLY_CHARGE_FULL",
            ) {
                match crate::text::parse_u32(val.as_str()) {
                    Some(x) => UEventScan { actual_max: Some(x), ..copied },
                    None => UEventScan { failed: true, ..copied },
                }
            } else if str_eq(key.as_str(), "POWER_SUPPLY_ENERGY_FULL_DESIGN") || str_eq(
                key.as_str(),
                "POWER_SUPPLY_CHARGE_FULL_DESIGN",
            ) {
                match crate::text::parse_u32(val.as_str()) {
                    Some(x) => UEventScan { factory_max: Some(x), ..copied },
                    None => UEventScan { failed: true, ..copied },
                }
            } else {
                copied
            }
        },
    }
}

} // verus!
