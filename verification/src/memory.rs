//! System memory inspection for the lobby's capacity gating.
//!
//! The server uses system memory pressure to decide whether to admit a new
//! lobby join: `used_percent = (MemTotal - MemAvailable) / MemTotal * 100`,
//! and a join is denied when `used_percent > max_memory_percent`.
//!
//! Reading `/proc/meminfo` is the program's business; this module parses
//! its text and makes the admission decision.
use crate::text::{
    chars_of, eq_ignore_ascii_case, has_prefix, lines, lines_of, parse_usize, parse_usize_chars,
    same_ignoring_ascii_case, slice_chars, starts_with, trim, trim_chars, views, ws_tokens, ws_tokens_of,
};
use vstd::prelude::*;

verus! {

/// Snapshot of system memory used for admission control.
#[derive(Debug, Clone, Copy, PartialEq, Eq, Structural)]
pub struct SystemMemory {
    /// Total physical memory in MiB.
    pub total_mb: usize,
    /// Memory currently available to allocations in MiB.
    pub available_mb: usize,
}

/// Used percentage: `(total - available) * 100 / total`, the subtraction and
/// the product saturating at their type's bounds, capped at 100, and 0 when
/// the total is 0.
pub open spec fn used_percent_of(total: nat, available: nat) -> nat {
    if total == 0 {
        0
    } else {
        let used: nat = if available >= total {
            0
        } else {
            (total - available) as nat
        };
        let scaled: nat = if used * 100 > usize::MAX {
            usize::MAX as nat
        } else {
            used * 100
        };
        let pct = scaled / total;
        if pct > 100 {
            100
        } else {
            pct
        }
    }
}

impl SystemMemory {
    /// Used percentage in `0..=100` (0 when `total_mb` is 0).
    pub fn used_percent(self) -> (p: u32)
        ensures
            p == used_percent_of(self.total_mb as nat, self.available_mb as nat),
            p <= 100,
    {
        if self.total_mb == 0 {
            return 0;
        }
        let used = self.total_mb.saturating_sub(self.available_mb);
        let scaled = match used.checked_mul(100) {
            Some(x) => x,
            None => usize::MAX,
        };
        let pct = scaled / self.total_mb;
        if pct > 100 {
            100
        } else {
            pct as u32
        }
    }
}

/// The unit `kB` (any ASCII case).
pub open spec fn is_kb_unit(s: Seq<char>) -> bool {
    eq_ignore_ascii_case(s, seq!['k', 'b'])
}

/// Value of a meminfo field body such as `"  16327688 kB"`: the first token
/// parsed as an unsigned decimal, accepted when a second token is absent or
/// is `kB` (any case).
pub open spec fn kb_value(rest: Seq<char>) -> Option<nat> {
    let toks = ws_tokens(trim(rest));
    if toks.len() == 0 {
        None
    } else {
        match parse_usize(toks[0]) {
            None => None,
            Some(v) => if toks.len() == 1 {
                Some(v)
            } else if is_kb_unit(toks[1]) {
                Some(v)
            } else {
                None
            },
        }
    }
}

/// Parse the body of a meminfo field (`"  16327688 kB"`) into kB.
pub fn parse_kb(rest: &Vec<char>) -> (r: Option<usize>)
    ensures
        match r {
            Some(v) => kb_value(rest@) == Some(v as nat),
            None => kb_value(rest@) is None,
        },
{
    let trimmed = trim_chars(rest);
    let toks = ws_tokens_of(&trimmed);
    if toks.len() == 0 {
        return None;
    }
    assert(toks@[0]@ == views(toks@)[0]);
    let value = match parse_usize_chars(&toks[0]) {
        Some(v) => v,
        None => return None,
    };
    if toks.len() == 1 {
        return Some(value);
    }
    assert(toks@[1]@ == views(toks@)[1]);
    let kb: Vec<char> = vec!['k', 'b'];
    assert(kb@ == seq!['k', 'b']);
    if same_ignoring_ascii_case(&toks[1], &kb) {
        Some(value)
    } else {
        None
    }
}

/// The prefix of the total-memory line.
pub open spec fn mem_total_key() -> Seq<char> {
    seq!['M', 'e', 'm', 'T', 'o', 't', 'a', 'l', ':']
}

/// The prefix of the available-memory line.
pub open spec fn mem_available_key() -> Seq<char> {
    seq!['M', 'e', 'm', 'A', 'v', 'a', 'i', 'l', 'a', 'b', 'l', 'e', ':']
}

/// The two fields after reading `ls` in order, starting from `(t, a)`: a
/// `MemTotal:` line sets the total to its parsed value (possibly none), a
/// `MemAvailable:` line sets the available amount, and reading stops as soon
/// as both are known.
pub open spec fn scan_meminfo(ls: Seq<Seq<char>>, t: Option<nat>, a: Option<nat>) -> (Option<
    nat,
>, Option<nat>)
    decreases ls.len(),
{
    if ls.len() == 0 {
        (t, a)
    } else {
        let line = ls[0];
        let t2 = if starts_with(line, mem_total_key()) {
            kb_value(line.skip(mem_total_key().len() as int))
        } else {
            t
        };
        let a2 = if !starts_with(line, mem_total_key()) && starts_with(line, mem_available_key()) {
            kb_value(line.skip(mem_available_key().len() as int))
        } else {
            a
        };
        if t2 is Some && a2 is Some {
            (t2, a2)
        } else {
            scan_meminfo(ls.drop_first(), t2, a2)
        }
    }
}

/// The memory snapshot `/proc/meminfo` text describes: both fields must be
/// present, and each is converted from kB to MiB by integer division.
pub open spec fn meminfo_snapshot(contents: Seq<char>) -> Option<SystemMemory> {
    let (t, a) = scan_meminfo(lines(contents), None, None);
    match (t, a) {
        (Some(tk), Some(ak)) => Some(
            SystemMemory { total_mb: (tk / 1024) as usize, available_mb: (ak / 1024) as usize },
        ),
        _ => None,
    }
}

/// Parse `/proc/meminfo` text into a snapshot; `None` when either field is
/// missing or malformed.
pub fn parse_meminfo(contents: &str) -> (r: Option<SystemMemory>)
    ensures
        r == meminfo_snapshot(contents@),
{
    let text = chars_of(contents);
    let ls = lines_of(&text);
    let total_lit: Vec<char> = vec!['M', 'e', 'm', 'T', 'o', 't', 'a', 'l', ':'];
    let avail_lit: Vec<char> = vec!['M', 'e', 'm', 'A', 'v', 'a', 'i', 'l', 'a', 'b', 'l', 'e', ':'];
    assert(total_lit@ == mem_total_key());
    assert(avail_lit@ == mem_available_key());
    let ghost goal = scan_meminfo(lines(contents@), None, None);
    let mut total_kb: Option<usize> = None;
    let mut available_kb: Option<usize> = None;
    let mut done = false;
    let mut i: usize = 0;
    assert(views(ls@).skip(0) == views(ls@));
    while i < ls.len() && !done
        invariant
            i <= ls@.len(),
            views(ls@) == lines(text@),
            text@ == contents@,
            goal == scan_meminfo(lines(contents@), None, None),
            total_lit@ == mem_total_key(),
            avail_lit@ == mem_available_key(),
            !done ==> scan_meminfo(views(ls@).skip(i as int), opt_nat(total_kb), opt_nat(
                available_kb,
            )) == goal,
            done ==> (opt_nat(total_kb), opt_nat(available_kb)) == goal,
        decreases ls@.len() - i,
    {
        let line = &ls[i];
        assert(line@ == views(ls@)[i as int]);
        assert(views(ls@).skip(i as int)[0] == line@);
        assert(views(ls@).skip(i as int).drop_first() == views(ls@).skip(i + 1));
        if has_prefix(line, &total_lit) {
            let rest = slice_chars(line, total_lit.len(), line.len());
            assert(rest@ == line@.skip(mem_total_key().len() as int));
            total_kb = parse_kb(&rest);
        } else if has_prefix(line, &avail_lit) {
            let rest = slice_chars(line, avail_lit.len(), line.len());
            assert(rest@ == line@.skip(mem_available_key().len() as int));
            available_kb = parse_kb(&rest);
        }
        if total_kb.is_some() && available_kb.is_some() {
            done = true;
        }
        i = i + 1;
    }
    proof {
        if !done {
            assert(views(ls@).skip(i as int) =~= Seq::<Seq<char>>::empty());
        }
    }
    match (total_kb, available_kb) {
        (Some(t), Some(a)) => Some(SystemMemory { total_mb: t / 1024, available_mb: a / 1024 }),
        _ => None,
    }
}

/// An optional count as an optional mathematical natural.
pub open spec fn opt_nat(o: Option<usize>) -> Option<nat> {
    match o {
        Some(v) => Some(v as nat),
        None => None,
    }
}

/// Outcome of an admission check.
#[derive(Debug, Clone, Copy, PartialEq, Eq, Structural)]
pub enum AdmissionVerdict {
    /// The join is allowed.
    Admit,
    /// The join is denied because system memory is too tight.
    Reject {
        /// Snapshot taken at decision time.
        memory: SystemMemory,
        /// Configured ceiling that was exceeded.
        ceiling_percent: u32,
    },
}

/// Decide whether a new game/connection should be admitted given the
/// configured ceiling and the current memory snapshot (`None` when the host
/// cannot be measured). A ceiling of 0 means "no limit", and an unmeasurable
/// host is admitted.
pub fn check_memory_admission(ceiling_percent: u32, memory: Option<SystemMemory>) -> (v:
    AdmissionVerdict)
    ensures
        v == (match memory {
            Some(m) => if ceiling_percent != 0 && used_percent_of(
                m.total_mb as nat,
                m.available_mb as nat,
            ) > ceiling_percent {
                AdmissionVerdict::Reject { memory: m, ceiling_percent }
            } else {
                AdmissionVerdict::Admit
            },
            None => AdmissionVerdict::Admit,
        }),
{
    if ceiling_percent == 0 {
        return AdmissionVerdict::Admit;
    }
    let memory = match memory {
        Some(m) => m,
        None => return AdmissionVerdict::Admit,
    };
    if memory.used_percent() > ceiling_percent {
        AdmissionVerdict::Reject { memory, ceiling_percent }
    } else {
        AdmissionVerdict::Admit
    }
}

} // verus!
