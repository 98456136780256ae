//! The computing side of the system-information collector: parsing of
//! /proc and /sys text, selection among devices, and the baselines behind the
//! rates (CPU usage, CPU power, network speed). Reading the files stays with
//! the caller, which hands the text or values in.

use vstd::prelude::*;
use vstd::slice::slice_subrange;

use crate::lexer::{
    all_digits, is_digit, line_spans, lines_of, parse_i32, parse_i32_spec, parse_u64, parse_u64_spec,
    word_spans, words_of,
};
use crate::text::{chars_of, str_eq, trim, trimmed};

verus! {

/// `s` starts with `p`.
pub open spec fn has_char_prefix(s: Seq<char>, p: Seq<char>) -> bool {
    p.len() <= s.len() && s.take(p.len() as int) == p
}

/// Whether `s` starts with `p`.
pub fn chars_start_with(s: &[char], p: &[char]) -> (r: bool)
    ensures
        r == has_char_prefix(s@, p@),
{
    if p.len() > s.len() {
        return false;
    }
    let mut i: usize = 0;
    while i < p.len()
        invariant
            p@.len() <= s@.len(),
            i <= p@.len(),
            forall|k: int| 0 <= k < i ==> s@[k] == p@[k],
        decreases p@.len() - i,
    {
        if s[i] != p[i] {
            assert(s@.take(p@.len() as int)[i as int] != p@[i as int]);
            return false;
        }
        i = i + 1;
    }
    assert(s@.take(p@.len() as int) =~= p@);
    true
}

/// Whether two character sequences are equal.
pub fn chars_eq(a: &[char], b: &[char]) -> (r: bool)
    ensures
        r == (a@ == b@),
{
    if a.len() != b.len() {
        return false;
    }
    assert(a@.take(b@.len() as int) =~= a@);
    chars_start_with(a, b)
}

/// The value of a trimmed decimal text (what `text.trim().parse::<u64>()` gives).
pub fn parse_u64_text(text: &str) -> (r: Option<u64>)
    ensures
        r == parse_u64_spec(trimmed(text@)),
{
    let t = trim(text);
    let cs = chars_of(t);
    parse_u64(cs.as_slice())
}

/// The first word of `s` as a number, 0 when there is none or it is not one.
pub open spec fn first_num_spec(s: Seq<char>) -> u64 {
    let w = words_of(s);
    if w.len() == 0 {
        0
    } else {
        match parse_u64_spec(w[0]) {
            Some(v) => v,
            None => 0,
        }
    }
}

fn first_num_chars(s: &[char]) -> (r: u64)
    ensures
        r == first_num_spec(s@),
{
    let spans = word_spans(s);
    if spans.len() == 0 {
        return 0;
    }
    let (a, b) = spans[0];
    match parse_u64(slice_subrange(s, a, b)) {
        Some(v) => v,
        None => 0,
    }
}

/// The first whitespace-separated number of a text, or 0.
pub fn first_num(s: &str) -> (r: u64)
    ensures
        r == first_num_spec(s@),
{
    let cs = chars_of(s);
    first_num_chars(cs.as_slice())
}

/// Jiffies counters of the aggregate "cpu" line of /proc/stat.
#[derive(Debug, Clone, Copy, PartialEq, Eq, Structural)]
pub struct CpuTimes {
    /// idle + iowait.
    pub idle: u64,
    /// Sum of all counters.
    pub total: u64,
}

/// The numbers among `ws`, in order (words that are not numbers are skipped).
pub open spec fn parsed_values(ws: Seq<Seq<char>>) -> Seq<u64>
    decreases ws.len(),
{
    if ws.len() == 0 {
        seq![]
    } else {
        let r = parsed_values(ws.drop_last());
        match parse_u64_spec(ws.last()) {
            Some(v) => r.push(v),
            None => r,
        }
    }
}

/// The sum of `v` modulo 2^64.
pub open spec fn wrapping_total(v: Seq<u64>) -> u64
    decreases v.len(),
{
    if v.len() == 0 {
        0
    } else {
        vstd::wrapping::u64_specs::wrapping_add(wrapping_total(v.drop_last()), v.last())
    }
}

/// The CPU counters a /proc/stat text holds: its first line must start with
/// the word "cpu" and carry at least four numbers; idle is the fourth plus the
/// fifth (iowait, 0 when absent) and total the sum of all of them, both modulo 2^64.
pub open spec fn cpu_times_of(s: Seq<char>) -> Option<CpuTimes> {
    let ls = lines_of(s);
    if ls.len() == 0 {
        None
    } else {
        let ws = words_of(ls[0]);
        if ws.len() == 0 || ws[0] != "cpu"@ {
            None
        } else {
            let vals = parsed_values(ws.drop_first());
            if vals.len() < 4 {
                None
            } else {
                Some(
                    CpuTimes {
                        idle: vstd::wrapping::u64_specs::wrapping_add(
                            vals[3],
                            if vals.len() > 4 {
                                vals[4]
                            } else {
                                0
                            },
                        ),
                        total: wrapping_total(vals),
                    },
                )
            }
        }
    }
}

/// Reads the CPU counters out of a /proc/stat text.
pub fn parse_cpu_times(stat: &str) -> (r: Option<CpuTimes>)
    ensures
        r == cpu_times_of(stat@),
{
    let cs = chars_of(stat);
    let lines = line_spans(cs.as_slice());
    if lines.len() == 0 {
        return None;
    }
    let (la, lb) = lines[0];
    let line = slice_subrange(cs.as_slice(), la, lb);
    let words = word_spans(line);
    let ghost ws = words_of(line@);
    if words.len() == 0 {
        return None;
    }
    let (wa, wb) = words[0];
    let cpu = chars_of("cpu");
    if !chars_eq(slice_subrange(line, wa, wb), cpu.as_slice()) {
        return None;
    }
    let mut vals: Vec<u64> = Vec::new();
    let mut k: usize = 1;
    assert(ws.drop_first().take(0) =~= Seq::<Seq<char>>::empty());
    while k < words.len()
        invariant
            ws == words_of(line@),
            words@.len() == ws.len(),
            forall|j: int|
                0 <= j < words@.len() ==> #[trigger] words@[j].0 <= words@[j].1 <= line@.len()
                    && line@.subrange(words@[j].0 as int, words@[j].1 as int) == ws[j],
            1 <= k <= words@.len(),
            vals@ == parsed_values(ws.drop_first().take(k - 1)),
        decreases words@.len() - k,
    {
        let (a, b) = words[k];
        let v = parse_u64(slice_subrange(line, a, b));
        assert(ws.drop_first().take(k as int).drop_last() =~= ws.drop_first().take(k - 1));
        assert(ws.drop_first().take(k as int).last() == ws[k as int]);
        match v {
            Some(x) => vals.push(x),
            None => {},
        }
        k = k + 1;
    }
    assert(ws.drop_first().take(k - 1) =~= ws.drop_first());
    if vals.len() < 4 {
        return None;
    }
    let idle = vals[3].wrapping_add(if vals.len() > 4 {
        vals[4]
    } else {
        0
    });
    let mut total: u64 = 0;
    let mut i: usize = 0;
    assert(vals@.take(0) =~= Seq::<u64>::empty());
    while i < vals.len()
        invariant
            i <= vals@.len(),
            total == wrapping_total(vals@.take(i as int)),
        decreases vals@.len() - i,
    {
        assert(vals@.take(i + 1).drop_last() =~= vals@.take(i as int));
        total = total.wrapping_add(vals[i]);
        i = i + 1;
    }
    assert(vals@.take(i as int) =~= vals@);
    Some(CpuTimes { idle, total })
}

/// MemTotal and MemAvailable (kB) found among the lines (the last of each wins; 0 when absent).
pub open spec fn meminfo_scan(ls: Seq<Seq<char>>) -> (u64, u64)
    decreases ls.len(),
{
    if ls.len() == 0 {
        (0, 0)
    } else {
        let (t, a) = meminfo_scan(ls.drop_last());
        let l = ls.last();
        if has_char_prefix(l, "MemTotal:"@) {
            (first_num_spec(l.skip("MemTotal:"@.len() as int)), a)
        } else if has_char_prefix(l, "MemAvailable:"@) {
            (t, first_num_spec(l.skip("MemAvailable:"@.len() as int)))
        } else {
            (t, a)
        }
    }
}

/// Used and total RAM in GB (kB / 1024 / 1024, truncated) from a /proc/meminfo text.
pub open spec fn ram_usage_of(s: Seq<char>) -> (i32, i32) {
    let (t, a) = meminfo_scan(lines_of(s));
    let used = if t >= a { (t - a) as u64 } else { 0u64 };
    ((used / 1024 / 1024) as i32, (t / 1024 / 1024) as i32)
}

/// Used and total RAM in GB from the text of /proc/meminfo (an empty text gives 0, 0).
pub fn ram_usage(meminfo: &str) -> (r: (i32, i32))
    ensures
        r == ram_usage_of(meminfo@),
{
    let cs = chars_of(meminfo);
    let lines = line_spans(cs.as_slice());
    let p_total = chars_of("MemTotal:");
    let p_avail = chars_of("MemAvailable:");
    let ghost ls = lines_of(cs@);
    let mut total_kb: u64 = 0;
    let mut avail_kb: u64 = 0;
    let mut k: usize = 0;
    assert(ls.take(0) =~= Seq::<Seq<char>>::empty());
    while k < lines.len()
        invariant
            ls == lines_of(cs@),
            cs@ == meminfo@,
            p_total@ == "MemTotal:"@,
            p_avail@ == "MemAvailable:"@,
            lines@.len() == ls.len(),
            forall|j: int|
                0 <= j < lines@.len() ==> #[trigger] lines@[j].0 <= lines@[j].1 <= cs@.len()
                    && cs@.subrange(lines@[j].0 as int, lines@[j].1 as int) == ls[j],
            k <= lines@.len(),
            (total_kb, avail_kb) == meminfo_scan(ls.take(k as int)),
        decreases lines@.len() - k,
    {
        let (a, b) = lines[k];
        let line = slice_subrange(cs.as_slice(), a, b);
        assert(ls.take(k + 1).drop_last() =~= ls.take(k as int));
        assert(ls.take(k + 1).last() == ls[k as int]);
        if chars_start_with(line, p_total.as_slice()) {
            let n = p_total.len();
            total_kb = first_num_chars(slice_subrange(line, n, line.len()));
            assert(line@.subrange(n as int, line@.len() as int) =~= line@.skip(n as int));
        } else if chars_start_with(line, p_avail.as_slice()) {
            let n = p_avail.len();
            avail_kb = first_num_chars(slice_subrange(line, n, line.len()));
            assert(line@.subrange(n as int, line@.len() as int) =~= line@.skip(n as int));
        }
        k = k + 1;
    }
    assert(ls.take(k as int) =~= ls);
    let total = (total_kb / 1024 / 1024) as i32;
    let used = (total_kb.saturating_sub(avail_kb) / 1024 / 1024) as i32;
    (used, total)
}

/// The part of a device path after its last '/'.
pub open spec fn basename(dev: Seq<char>) -> Seq<char>
    decreases dev.len(),
{
    if dev.len() == 0 {
        seq![]
    } else if dev.last() == '/' {
        seq![]
    } else {
        basename(dev.drop_last()).push(dev.last())
    }
}

/// A physical block-device partition (NVMe, SCSI/SATA, MMC, virtio).
pub open spec fn is_block_device(base: Seq<char>) -> bool {
    has_char_prefix(base, "nvme"@) || has_char_prefix(base, "sd"@) || has_char_prefix(
        base,
        "mmcblk"@,
    ) || has_char_prefix(base, "vd"@)
}

/// File systems that are not counted as data partitions.
pub open spec fn excluded_fs(fs: Seq<char>) -> bool {
    fs == "ntfs"@ || fs == "vfat"@ || fs == "swap"@ || fs == "ext4"@ || fs == "ext3"@ || fs
        == "ext2"@ || fs == "xfs"@ || fs == "squashfs"@ || fs == "overlay"@ || fs == "tmpfs"@
}

/// Devices and mount points picked from the lines of /proc/mounts: lines with
/// at least three fields whose device is a block-device partition and whose
/// file system is not excluded, each device once (its first mount).
pub open spec fn mount_scan(ls: Seq<Seq<char>>) -> (Seq<Seq<char>>, Seq<Seq<char>>)
    decreases ls.len(),
{
    if ls.len() == 0 {
        (seq![], seq![])
    } else {
        mount_step(mount_scan(ls.drop_last()), ls.last())
    }
}

/// One line of /proc/mounts added to the devices and mount points picked so far.
pub open spec fn mount_step(prev: (Seq<Seq<char>>, Seq<Seq<char>>), line: Seq<char>) -> (Seq<Seq<char>>, Seq<Seq<char>>) {
    let (devs, mnts) = prev;
    let f = words_of(line);
    if f.len() >= 3 && is_block_device(basename(f[0])) && !excluded_fs(f[2]) && !devs.contains(
        f[0],
    ) {
        (devs.push(f[0]), mnts.push(f[1]))
    } else {
        (devs, mnts)
    }
}

/// `spans` locate in `cs` the entries of `items`.
pub open spec fn spans_hold(cs: Seq<char>, spans: Seq<(usize, usize)>, items: Seq<Seq<char>>) -> bool {
    &&& spans.len() == items.len()
    &&& forall|m: int| 0 <= m < spans.len() ==> #[trigger] spans[m].0 <= spans[m].1 <= cs.len() && cs.subrange(spans[m].0 as int, spans[m].1 as int) == items[m]
}

/// `strs` hold the character sequences `items`.
pub open spec fn strings_hold(strs: Seq<String>, items: Seq<Seq<char>>) -> bool {
    &&& strs.len() == items.len()
    &&& forall|m: int| 0 <= m < strs.len() ==> #[trigger] strs[m]@ == items[m]
}

fn mount_line(
    mounts: &str,
    cs: &[char],
    la: usize,
    lb: usize,
    devs: &mut Vec<(usize, usize)>,
    out: &mut Vec<String>,
    Ghost(prev): Ghost<(Seq<Seq<char>>, Seq<Seq<char>>)>,
)
    requires
        la <= lb <= cs@.len(),
        cs@ == mounts@,
        spans_hold(cs@, old(devs)@, prev.0),
        strings_hold(old(out)@, prev.1),
    ensures
        spans_hold(cs@, final(devs)@, mount_step(prev, cs@.subrange(la as int, lb as int)).0),
        strings_hold(final(out)@, mount_step(prev, cs@.subrange(la as int, lb as int)).1),
{
    let line = slice_subrange(cs, la, lb);
    let f = word_spans(line);
    let ghost fw = words_of(line@);
    if f.len() >= 3 {
        let (da, db) = f[0];
        let dev = slice_subrange(line, da, db);
        let (ma, mb) = f[1];
        let (fa, fb) = f[2];
        let fs = slice_subrange(line, fa, fb);
        let cut = last_slash_split(dev);
        let base = slice_subrange(dev, cut, dev.len());
        assert(fw[0] == dev@);
        assert(fw[2] == fs@);
        if is_block_base(base) && !is_excluded_fs(fs) {
            let seen = span_listed(cs, devs, dev, Ghost(prev.0));
            if !seen {
                devs.push((la + da, la + db));
                out.push(mounts.substring_char(la + ma, la + mb).to_owned());
                assert(mounts@.subrange(la + ma, la + mb) =~= line@.subrange(ma as int, mb as int));
                assert(cs@.subrange(la + da, la + db) =~= line@.subrange(da as int, db as int));
                assert(devs@.last() == ((la + da) as usize, (la + db) as usize));
                assert(out@.last()@ == fw[1]);
            }
        }
    }
}

fn last_slash_split(dev: &[char]) -> (r: usize)
    ensures
        r <= dev@.len(),
        dev@.subrange(r as int, dev@.len() as int) == basename(dev@),
{
    let mut i: usize = dev.len();
    assert(dev@.subrange(i as int, i as int) =~= Seq::<char>::empty());
    assert(dev@.take(i as int) =~= dev@);
    while i > 0 && dev[i - 1] != '/'
        invariant
            i <= dev@.len(),
            basename(dev@) == basename(dev@.take(i as int)) + dev@.subrange(i as int, dev@.len() as int),
        decreases i,
    {
        assert(dev@.take(i as int).drop_last() =~= dev@.take(i - 1));
        assert(dev@.take(i as int).last() == dev@[i - 1]);
        assert(dev@.subrange(i - 1, dev@.len() as int) =~= seq![dev@[i - 1]] + dev@.subrange(i as int, dev@.len() as int));
        i = i - 1;
    }
    proof {
        if i > 0 {
            assert(dev@.take(i as int).last() == dev@[i - 1]);
        }
        assert(basename(dev@.take(i as int)) =~= Seq::<char>::empty());
        assert(dev@.take(dev@.len() as int) =~= dev@);
    }
    i
}

fn is_excluded_fs(fs: &[char]) -> (r: bool)
    ensures
        r == excluded_fs(fs@),
{
    let names = [
        chars_of("ntfs"),
        chars_of("vfat"),
        chars_of("swap"),
        chars_of("ext4"),
        chars_of("ext3"),
        chars_of("ext2"),
        chars_of("xfs"),
        chars_of("squashfs"),
        chars_of("overlay"),
        chars_of("tmpfs"),
    ];
    let r0 = chars_eq(fs, names[0].as_slice());
    let r1 = chars_eq(fs, names[1].as_slice());
    let r2 = chars_eq(fs, names[2].as_slice());
    let r3 = chars_eq(fs, names[3].as_slice());
    let r4 = chars_eq(fs, names[4].as_slice());
    let r5 = chars_eq(fs, names[5].as_slice());
    let r6 = chars_eq(fs, names[6].as_slice());
    let r7 = chars_eq(fs, names[7].as_slice());
    let r8 = chars_eq(fs, names[8].as_slice());
    let r9 = chars_eq(fs, names[9].as_slice());
    r0 || r1 || r2 || r3 || r4 || r5 || r6 || r7 || r8 || r9
}

fn is_block_base(base: &[char]) -> (r: bool)
    ensures
        r == is_block_device(base@),
{
    let a = chars_of("nvme");
    let b = chars_of("sd");
    let c = chars_of("mmcblk");
    let d = chars_of("vd");
    chars_start_with(base, a.as_slice()) || chars_start_with(base, b.as_slice())
        || chars_start_with(base, c.as_slice()) || chars_start_with(base, d.as_slice())
}

fn span_listed(cs: &[char], spans: &Vec<(usize, usize)>, x: &[char], Ghost(items): Ghost<Seq<Seq<char>>>) -> (r: bool)
    requires
        spans_hold(cs@, spans@, items),
    ensures
        r == items.contains(x@),
{
    let mut j: usize = 0;
    while j < spans.len()
        invariant
            j <= spans@.len(),
            spans@.len() == items.len(),
            forall|m: int| 0 <= m < spans@.len() ==> #[trigger] spans@[m].0 <= spans@[m].1 <= cs@.len() && cs@.subrange(spans@[m].0 as int, spans@[m].1 as int) == items[m],
            forall|m: int| 0 <= m < j ==> items[m] != x@,
        decreases spans@.len() - j,
    {
        let (xa, xb) = spans[j];
        if chars_eq(slice_subrange(cs, xa, xb), x) {
            assert(items[j as int] == x@);
            return true;
        }
        j = j + 1;
    }
    false
}

/// The mount points whose capacity is summed as disk space: from the text of
/// /proc/mounts, each block-device partition once (btrfs subvolumes mounted
/// several times count once), skipping non-data file systems.
pub fn mount_candidates(mounts: &str) -> (r: Vec<String>)
    ensures
        r@.len() == mount_scan(lines_of(mounts@)).1.len(),
        forall|k: int| 0 <= k < r@.len() ==> #[trigger] r@[k]@ == mount_scan(lines_of(mounts@)).1[k],
{
    let cs = chars_of(mounts);
    let lines = line_spans(cs.as_slice());
    let ghost ls = lines_of(cs@);
    let mut devs: Vec<(usize, usize)> = Vec::new();
    let mut out: Vec<String> = Vec::new();
    let mut k: usize = 0;
    assert(ls.take(0) =~= Seq::<Seq<char>>::empty());
    while k < lines.len()
        invariant
            ls == lines_of(cs@),
            cs@ == mounts@,
            lines@.len() == ls.len(),
            forall|j: int|
                0 <= j < lines@.len() ==> #[trigger] lines@[j].0 <= lines@[j].1 <= cs@.len()
                    && cs@.subrange(lines@[j].0 as int, lines@[j].1 as int) == ls[j],
            k <= lines@.len(),
            spans_hold(cs@, devs@, mount_scan(ls.take(k as int)).0),
            strings_hold(out@, mount_scan(ls.take(k as int)).1),
        decreases lines@.len() - k,
    {
        let (la, lb) = lines[k];
        assert(ls.take(k + 1).drop_last() =~= ls.take(k as int));
        assert(ls.take(k + 1).last() == ls[k as int]);
        mount_line(mounts, cs.as_slice(), la, lb, &mut devs, &mut out, Ghost(mount_scan(ls.take(k as int))));
        k = k + 1;
    }
    assert(ls.take(k as int) =~= ls);
    out
}

/// Capacity of one mounted file system, as `statvfs` reports it.
#[derive(Debug, Clone, Copy, PartialEq, Eq, Structural)]
pub struct FsStats {
    /// f_blocks
    pub blocks: u64,
    /// f_bfree
    pub bfree: u64,
    /// f_frsize
    pub frsize: u64,
}

/// `a * b`, or `u64::MAX` when it overflows.
pub open spec fn sat_mul(a: u64, b: u64) -> u64 {
    if a * b > u64::MAX {
        u64::MAX
    } else {
        (a * b) as u64
    }
}

fn saturating_mul(a: u64, b: u64) -> (r: u64)
    ensures
        r == sat_mul(a, b),
{
    match a.checked_mul(b) {
        Some(v) => v,
        None => u64::MAX,
    }
}

/// Bytes to GB, rounded to the nearest (half a GB added before dividing).
pub open spec fn to_gb_rounded(bytes: u64) -> u64 {
    bytes.saturating_add(536_870_912) / 1_073_741_824
}

/// Used and total GB summed over the file systems (saturating).
pub open spec fn disk_sums(st: Seq<FsStats>) -> (u64, u64)
    decreases st.len(),
{
    if st.len() == 0 {
        (0, 0)
    } else {
        let (used, total) = disk_sums(st.drop_last());
        let s = st.last();
        (
            used.saturating_add(to_gb_rounded(sat_mul(s.blocks.saturating_sub(s.bfree), s.frsize))),
            total.saturating_add(to_gb_rounded(sat_mul(s.blocks, s.frsize))),
        )
    }
}

/// Used and total disk space in GB (each file system rounded to whole GB).
pub fn disk_usage(stats: &Vec<FsStats>) -> (r: (i32, i32))
    ensures
        r == ((disk_sums(stats@).0 as i32), (disk_sums(stats@).1 as i32)),
{
    let mut used_gb: u64 = 0;
    let mut total_gb: u64 = 0;
    let mut i: usize = 0;
    assert(stats@.take(0) =~= Seq::<FsStats>::empty());
    while i < stats.len()
        invariant
            i <= stats@.len(),
            (used_gb, total_gb) == disk_sums(stats@.take(i as int)),
        decreases stats@.len() - i,
    {
        let s = stats[i];
        assert(stats@.take(i + 1).drop_last() =~= stats@.take(i as int));
        assert(stats@.take(i + 1).last() == stats@[i as int]);
        let total = saturating_mul(s.blocks, s.frsize);
        let used = saturating_mul(s.blocks.saturating_sub(s.bfree), s.frsize);
        total_gb = total_gb.saturating_add(total.saturating_add(536_870_912) / 1_073_741_824);
        used_gb = used_gb.saturating_add(used.saturating_add(536_870_912) / 1_073_741_824);
        i = i + 1;
    }
    assert(stats@.take(i as int) =~= stats@);
    (used_gb as i32, total_gb as i32)
}

/// The little-endian `u16` at `off`, or 0 when the buffer is too short.
pub open spec fn u16_at_spec(buf: Seq<u8>, off: int) -> u16 {
    if off + 2 <= buf.len() {
        ((buf[off] as u16) | ((buf[off + 1] as u16) << 8u16)) as u16
    } else {
        0
    }
}

/// Reads a little-endian `u16` at `off` (0 past the end of the buffer).
pub fn u16_at(buf: &[u8], off: usize) -> (r: u16)
    ensures
        r == u16_at_spec(buf@, off as int),
{
    if off <= buf.len() && buf.len() - off >= 2 {
        (buf[off] as u16) | ((buf[off + 1] as u16) << 8u16)
    } else {
        0
    }
}

/// GPU figures from amdgpu's `gpu_metrics`: temperature in degrees C and
/// clock in MHz; activity (centi-percent) and power (mW) raw, for the caller
/// to scale to % and W.
#[derive(Debug, Clone, Copy, PartialEq, Eq, Structural)]
pub struct GpuReading {
    pub usage_centipercent: u16,
    pub temp: i32,
    pub power_mw: u16,
    pub freq: i32,
}

/// The reading a `gpu_metrics` blob holds, by the format revision in byte 2:
/// v1 (temperature_hotspot @6, average_gfx_activity @16, average_socket_power
/// @22, current_gfxclk @54) or v2 (temperature_gfx @4, average_gfx_activity
/// @28, average_gfx_power @46, average_gfxclk_frequency @64); temperatures are
/// in 0.01 degrees C. Blobs shorter than the header or of other revisions give none.
pub open spec fn gpu_reading_of(buf: Seq<u8>) -> Option<GpuReading> {
    if buf.len() < 4 {
        None
    } else if buf[2] == 1 {
        Some(
            GpuReading {
                usage_centipercent: u16_at_spec(buf, 16),
                temp: (u16_at_spec(buf, 6) / 100) as i32,
                power_mw: u16_at_spec(buf, 22),
                freq: u16_at_spec(buf, 54) as i32,
            },
        )
    } else if buf[2] == 2 {
        Some(
            GpuReading {
                usage_centipercent: u16_at_spec(buf, 28),
                temp: (u16_at_spec(buf, 4) / 100) as i32,
                power_mw: u16_at_spec(buf, 46),
                freq: u16_at_spec(buf, 64) as i32,
            },
        )
    } else {
        None
    }
}

/// Decodes an amdgpu `gpu_metrics` blob.
pub fn parse_gpu_metrics(buf: &[u8]) -> (r: Option<GpuReading>)
    ensures
        r == gpu_reading_of(buf@),
{
    if buf.len() < 4 {
        return None;
    }
    let format_rev = buf[2];
    if format_rev == 1 {
        let usage = u16_at(buf, 16);
        let temp = (u16_at(buf, 6) as i32) / 100;
        let power = u16_at(buf, 22);
        let freq = u16_at(buf, 54) as i32;
        Some(GpuReading { usage_centipercent: usage, temp, power_mw: power, freq })
    } else if format_rev == 2 {
        let temp = (u16_at(buf, 4) as i32) / 100;
        let usage = u16_at(buf, 28);
        let power = u16_at(buf, 46);
        let freq = u16_at(buf, 64) as i32;
        Some(GpuReading { usage_centipercent: usage, temp, power_mw: power, freq })
    } else {
        None
    }
}

/// A network interface as found under /sys/class/net.
#[derive(Debug, Clone)]
pub struct NetIface {
    pub name: String,
    /// It has a `device` link (a physical NIC).
    pub physical: bool,
    /// Its operstate is "up".
    pub up: bool,
}

/// Preference of an interface: physical and up 0, physical 1, up 2, else 3.
pub open spec fn iface_rank(i: NetIface) -> u8 {
    if i.physical && i.up {
        0
    } else if i.physical {
        1
    } else if i.up {
        2
    } else {
        3
    }
}

/// Candidates are all interfaces but the loopback "lo".
pub open spec fn iface_candidate(i: NetIface) -> bool {
    i.name@ != "lo"@
}

/// Picks the network interface to watch: the first, in the given order, of the
/// best-ranked interfaces other than "lo"; `None` when there is none.
pub fn choose_net_iface(ifaces: &Vec<NetIface>) -> (r: Option<usize>)
    ensures
        r is None <==> forall|j: int| 0 <= j < ifaces@.len() ==> !iface_candidate(#[trigger] ifaces@[j]),
        r matches Some(i) ==> {
            &&& i < ifaces@.len()
            &&& iface_candidate(ifaces@[i as int])
            &&& forall|j: int| 0 <= j < ifaces@.len() && iface_candidate(#[trigger] ifaces@[j]) ==> iface_rank(ifaces@[i as int]) <= iface_rank(ifaces@[j])
            &&& forall|j: int| 0 <= j < i && iface_candidate(#[trigger] ifaces@[j]) ==> iface_rank(ifaces@[i as int]) < iface_rank(ifaces@[j])
        },
{
    let mut best: Option<(usize, u8)> = None;
    let mut k: usize = 0;
    while k < ifaces.len()
        invariant
            k <= ifaces@.len(),
            best is None <==> forall|j: int| 0 <= j < k ==> !iface_candidate(#[trigger] ifaces@[j]),
            best matches Some(b) ==> {
                &&& b.0 < k
                &&& b.1 == iface_rank(ifaces@[b.0 as int])
                &&& iface_candidate(ifaces@[b.0 as int])
                &&& forall|j: int| 0 <= j < k && iface_candidate(#[trigger] ifaces@[j]) ==> b.1 <= iface_rank(ifaces@[j])
                &&& forall|j: int| 0 <= j < b.0 && iface_candidate(#[trigger] ifaces@[j]) ==> b.1 < iface_rank(ifaces@[j])
            },
        decreases ifaces@.len() - k,
    {
        let e = &ifaces[k];
        if !str_eq(e.name.as_str(), "lo") {
            let prio: u8 = if e.physical && e.up {
                0
            } else if e.physical {
                1
            } else if e.up {
                2
            } else {
                3
            };
            let better = match best {
                None => true,
                Some((_, p)) => prio < p,
            };
            if better {
                best = Some((k, prio));
            }
        }
        k = k + 1;
    }
    match best {
        Some((i, _)) => Some(i),
        None => None,
    }
}

/// Whether an operstate text says "up" (surrounding whitespace ignored).
pub fn oper_up(text: &str) -> (r: bool)
    ensures
        r == (trimmed(text@) == "up"@),
{
    str_eq(trim(text), "up")
}

/// A /sys/devices/system/cpu entry of one CPU: "cpu" followed by one or more digits.
pub open spec fn cpu_dir_name(name: Seq<char>) -> bool {
    has_char_prefix(name, "cpu"@) && name.len() > "cpu"@.len() && all_digits(name.skip("cpu"@.len() as int))
}

/// Whether a directory name is that of one CPU ("cpu0", "cpu15", not "cpufreq").
pub fn is_cpu_dir_name(name: &str) -> (r: bool)
    ensures
        r == cpu_dir_name(name@),
{
    let cs = chars_of(name);
    let p = chars_of("cpu");
    if !chars_start_with(cs.as_slice(), p.as_slice()) || cs.len() <= p.len() {
        return false;
    }
    let mut i: usize = p.len();
    while i < cs.len()
        invariant
            p@.len() <= i <= cs@.len(),
            p@ == "cpu"@,
            cs@ == name@,
            forall|k: int| p@.len() <= k < i ==> is_digit(#[trigger] cs@[k]),
        decreases cs@.len() - i,
    {
        let c = cs[i];
        if !('0' <= c && c <= '9') {
            assert(cs@.skip(p@.len() as int)[i - p@.len()] == c);
            assert(!is_digit(cs@.skip(p@.len() as int)[i - p@.len()]));
            return false;
        }
        i = i + 1;
    }
    assert forall|k: int| 0 <= k < cs@.skip(p@.len() as int).len() implies is_digit(#[trigger] cs@.skip(p@.len() as int)[k]) by {
        assert(cs@.skip(p@.len() as int)[k] == cs@[k + p@.len()]);
    }
    true
}

/// Average frequency in MHz of the CPUs whose current frequency (kHz) was read;
/// 0 when none was (the kHz are summed modulo 2^64).
pub fn average_mhz(khz: &Vec<u64>) -> (r: i32)
    ensures
        khz@.len() == 0 ==> r == 0,
        khz@.len() > 0 ==> r == (wrapping_total(khz@) / (khz@.len() as u64) / 1000) as i32,
{
    let mut sum: u64 = 0;
    let mut i: usize = 0;
    assert(khz@.take(0) =~= Seq::<u64>::empty());
    while i < khz.len()
        invariant
            i <= khz@.len(),
            sum == wrapping_total(khz@.take(i as int)),
        decreases khz@.len() - i,
    {
        assert(khz@.take(i + 1).drop_last() =~= khz@.take(i as int));
        sum = sum.wrapping_add(khz[i]);
        i = i + 1;
    }
    assert(khz@.take(i as int) =~= khz@);
    let count = khz.len() as u64;
    if count == 0 {
        0
    } else {
        (sum / count / 1000) as i32
    }
}

/// Degrees C from millidegrees (k10temp `temp1_input`).
pub fn millidegrees_to_c(v: u64) -> (r: i32)
    ensures
        r == (v / 1000) as i32,
{
    (v / 1000) as i32
}

/// Whether a hwmon `name` text names the AMD k10temp sensor.
pub fn is_k10temp(name: &str) -> (r: bool)
    ensures
        r == (trimmed(name@) == "k10temp"@),
{
    str_eq(trim(name), "k10temp")
}

/// A hwmon chip: its `name` text and the readings of `fan1_input`..`fan6_input`
/// (`None` where a file is missing or not a number).
#[derive(Debug, Clone)]
pub struct FanChip {
    pub name: String,
    pub fans: Vec<Option<u64>>,
}

/// An ITE Super-IO chip (it87 driver).
pub open spec fn ite_chip(name: Seq<char>) -> bool {
    let t = trimmed(name);
    has_char_prefix(t, "it87"@) || has_char_prefix(t, "it8620"@) || has_char_prefix(t, "it8"@)
}

/// The first non-zero reading among `fans`.
pub open spec fn first_spinning(fans: Seq<Option<u64>>) -> Option<u64>
    decreases fans.len(),
{
    if fans.len() == 0 {
        None
    } else {
        match fans[0] {
            Some(v) if v > 0 => Some(v),
            _ => first_spinning(fans.drop_first()),
        }
    }
}

/// The fan speed shown: the first non-zero reading of the first ITE chip
/// that has one, in chip order; 0 when there is none.
pub open spec fn fan_rpm_of(chips: Seq<FanChip>) -> i32
    decreases chips.len(),
{
    if chips.len() == 0 {
        0
    } else if ite_chip(chips[0].name@) && first_spinning(chips[0].fans@) is Some {
        first_spinning(chips[0].fans@)->0 as i32
    } else {
        fan_rpm_of(chips.drop_first())
    }
}

fn first_spinning_exec(fans: &Vec<Option<u64>>) -> (r: Option<u64>)
    ensures
        r == first_spinning(fans@),
{
    let mut i: usize = 0;
    assert(fans@.skip(0) =~= fans@);
    while i < fans.len()
        invariant
            i <= fans@.len(),
            first_spinning(fans@) == first_spinning(fans@.skip(i as int)),
        decreases fans@.len() - i,
    {
        assert(fans@.skip(i as int)[0] == fans@[i as int]);
        if let Some(v) = fans[i] {
            if v > 0 {
                return Some(v);
            }
        }
        assert(fans@.skip(i as int).drop_first() =~= fans@.skip(i + 1));
        i = i + 1;
    }
    None
}

/// The fan speed from the hwmon chips, as the screen shows it.
pub fn fan_rpm(chips: &Vec<FanChip>) -> (r: i32)
    ensures
        r == fan_rpm_of(chips@),
{
    let p1 = chars_of("it87");
    let p2 = chars_of("it8620");
    let p3 = chars_of("it8");
    let mut i: usize = 0;
    assert(chips@.skip(0) =~= chips@);
    while i < chips.len()
        invariant
            i <= chips@.len(),
            p1@ == "it87"@,
            p2@ == "it8620"@,
            p3@ == "it8"@,
            fan_rpm_of(chips@) == fan_rpm_of(chips@.skip(i as int)),
        decreases chips@.len() - i,
    {
        let c = &chips[i];
        assert(chips@.skip(i as int)[0] == chips@[i as int]);
        assert(chips@.skip(i as int).drop_first() =~= chips@.skip(i + 1));
        let name = chars_of(trim(c.name.as_str()));
        let ite = chars_start_with(name.as_slice(), p1.as_slice()) || chars_start_with(
            name.as_slice(),
            p2.as_slice(),
        ) || chars_start_with(name.as_slice(), p3.as_slice());
        if ite {
            if let Some(v) = first_spinning_exec(&c.fans) {
                return v as i32;
            }
        }
        i = i + 1;
    }
    0
}

/// A /sys/class/powercap entry with its `energy_uj` and `max_energy_range_uj`
/// readings (`None` where unreadable).
#[derive(Debug, Clone)]
pub struct RaplDomain {
    pub name: String,
    pub energy_uj: Option<u64>,
    pub max_energy_range_uj: Option<u64>,
}

/// An Intel RAPL domain.
pub open spec fn rapl_domain(name: Seq<char>) -> bool {
    has_char_prefix(name, "intel-rapl"@)
}

/// The package domain ("intel-rapl:0", or "intel-rapl" on old kernels).
pub open spec fn rapl_package(name: Seq<char>) -> bool {
    name == "intel-rapl:0"@ || name == "intel-rapl"@
}

/// The energy counter and its range used for CPU power: the first package
/// domain whose counter is readable; otherwise the first other RAPL domain, if
/// its counter is readable. An unreadable range counts as 0.
pub open spec fn rapl_choice(ds: Seq<RaplDomain>) -> Option<(u64, u64)> {
    if exists|i: int| 0 <= i < ds.len() && rapl_package(ds[i].name@) && #[trigger] ds[i].energy_uj is Some {
        let i = choose|i: int| 0 <= i < ds.len() && rapl_package(ds[i].name@) && #[trigger] ds[i].energy_uj is Some
            && forall|j: int| 0 <= j < i ==> !(rapl_package(ds[j].name@) && #[trigger] ds[j].energy_uj is Some);
        Some((ds[i].energy_uj->0, match ds[i].max_energy_range_uj { Some(m) => m, None => 0 }))
    } else if exists|i: int| 0 <= i < ds.len() && rapl_domain(#[trigger] ds[i].name@) && !rapl_package(ds[i].name@) {
        let i = choose|i: int| 0 <= i < ds.len() && rapl_domain(#[trigger] ds[i].name@) && !rapl_package(ds[i].name@)
            && forall|j: int| 0 <= j < i ==> !(rapl_domain(#[trigger] ds[j].name@) && !rapl_package(ds[j].name@));
        match ds[i].energy_uj {
            Some(e) => Some((e, match ds[i].max_energy_range_uj { Some(m) => m, None => 0 })),
            None => None,
        }
    } else {
        None
    }
}

proof fn lemma_package_is_domain(name: Seq<char>)
    requires
        rapl_package(name),
    ensures
        rapl_domain(name),
{
    reveal_strlit("intel-rapl:0");
    reveal_strlit("intel-rapl");
    assert("intel-rapl:0"@.take("intel-rapl"@.len() as int) =~= "intel-rapl"@);
    assert("intel-rapl"@.take("intel-rapl"@.len() as int) =~= "intel-rapl"@);
}

/// Picks the RAPL energy counter (and its wrap-around range) for CPU power.
pub fn read_rapl_package(ds: &Vec<RaplDomain>) -> (r: Option<(u64, u64)>)
    ensures
        r == rapl_choice(ds@),
{
    let prefix = chars_of("intel-rapl");
    let mut fallback: Option<usize> = None;
    let mut i: usize = 0;
    while i < ds.len()
        invariant
            i <= ds@.len(),
            prefix@ == "intel-rapl"@,
            forall|j: int| 0 <= j < i ==> !(rapl_package(ds@[j].name@) && #[trigger] ds@[j].energy_uj is Some),
            fallback is None <==> forall|j: int| 0 <= j < i ==> !(rapl_domain(#[trigger] ds@[j].name@) && !rapl_package(ds@[j].name@)),
            fallback matches Some(f) ==> f < i && rapl_domain(ds@[f as int].name@) && !rapl_package(ds@[f as int].name@)
                && forall|j: int| 0 <= j < f ==> !(rapl_domain(#[trigger] ds@[j].name@) && !rapl_package(ds@[j].name@)),
        decreases ds@.len() - i,
    {
        let d = &ds[i];
        let name = chars_of(d.name.as_str());
        let package = str_eq(d.name.as_str(), "intel-rapl:0") || str_eq(d.name.as_str(), "intel-rapl");
        let domain = chars_start_with(name.as_slice(), prefix.as_slice());
        if package || domain {
            if package {
                if let Some(e) = d.energy_uj {
                    let m = match d.max_energy_range_uj {
                        Some(m) => m,
                        None => 0,
                    };
                    proof {
                        let w = choose|k: int| 0 <= k < ds@.len() && rapl_package(ds@[k].name@) && #[trigger] ds@[k].energy_uj is Some
                            && forall|j: int| 0 <= j < k ==> !(rapl_package(ds@[j].name@) && #[trigger] ds@[j].energy_uj is Some);
                        assert(0 <= i < ds@.len() && rapl_package(ds@[i as int].name@) && ds@[i as int].energy_uj is Some
                            && forall|j: int| 0 <= j < i ==> !(rapl_package(ds@[j].name@) && #[trigger] ds@[j].energy_uj is Some));
                        if w < i {
                        } else if w > i {
                            assert(!(rapl_package(ds@[i as int].name@) && ds@[i as int].energy_uj is Some));
                        }
                        assert(w == i);
                    }
                    return Some((e, m));
                }
            } else if fallback.is_none() {
                fallback = Some(i);
            }
        }
        proof {
            if package {
                lemma_package_is_domain(ds@[i as int].name@);
            }
        }
        i = i + 1;
    }
    match fallback {
        Some(f) => {
            let d = &ds[f];
            proof {
                let w = choose|k: int| 0 <= k < ds@.len() && rapl_domain(#[trigger] ds@[k].name@) && !rapl_package(ds@[k].name@)
                    && forall|j: int| 0 <= j < k ==> !(rapl_domain(#[trigger] ds@[j].name@) && !rapl_package(ds@[j].name@));
                assert(0 <= f < ds@.len() && rapl_domain(ds@[f as int].name@) && !rapl_package(ds@[f as int].name@)
                    && forall|j: int| 0 <= j < f ==> !(rapl_domain(#[trigger] ds@[j].name@) && !rapl_package(ds@[j].name@)));
                if w < f {
                } else if w > f {
                    assert(!(rapl_domain(ds@[f as int].name@) && !rapl_package(ds@[f as int].name@)));
                }
                assert(w == f);
            }
            match d.energy_uj {
                Some(e) => Some(
                    (
                        e,
                        match d.max_energy_range_uj {
                            Some(m) => m,
                            None => 0,
                        },
                    ),
                ),
                None => None,
            }
        },
        None => None,
    }
}

/// Frames per second from gamescope's `app_frametime_ns` (0 for a zero frame time).
pub open spec fn fps_of_frametime(ft: u64) -> i32 {
    if ft == 0 {
        0
    } else {
        (1_000_000_000u64 / ft) as i32
    }
}

/// The value of eight little-endian bytes.
pub open spec fn u64_from_le(s: Seq<u8>) -> u64 {
    (s[0] as u64) | ((s[1] as u64) << 8u64) | ((s[2] as u64) << 16u64) | ((s[3] as u64) << 24u64)
        | ((s[4] as u64) << 32u64) | ((s[5] as u64) << 40u64) | ((s[6] as u64) << 48u64) | ((
    s[7] as u64) << 56u64)
}

/// `app_frametime_ns` of a mangoapp message buffer (bytes 24..32, after the
/// 8-byte message type and the header, pid and padding).
pub open spec fn frametime_at(msg: Seq<u8>) -> u64 {
    u64_from_le(msg.subrange(24, 32))
}

/// The frame rate a mangoapp message reports; `None` for a buffer too short
/// to hold the frame time.
pub fn fps_from_message(msg: &[u8]) -> (r: Option<i32>)
    ensures
        msg@.len() < 32 ==> r is None,
        msg@.len() >= 32 ==> r == Some(fps_of_frametime(frametime_at(msg@))),
{
    if msg.len() < 32 {
        return None;
    }
    let ft: u64 = (msg[24] as u64) | ((msg[25] as u64) << 8u64) | ((msg[26] as u64) << 16u64) | ((
    msg[27] as u64) << 24u64) | ((msg[28] as u64) << 32u64) | ((msg[29] as u64) << 40u64) | ((
    msg[30] as u64) << 48u64) | ((msg[31] as u64) << 56u64);
    Some(if ft == 0 {
        0
    } else {
        (1_000_000_000u64 / ft) as i32
    })
}

/// Counter deltas for the CPU usage: total and idle jiffies elapsed (each
/// saturating at 0). Usage is `(total - idle) / total`, 0 when `total` is 0.
#[derive(Debug, Clone, Copy, PartialEq, Eq, Structural)]
pub struct CpuDelta {
    pub total: u64,
    pub idle: u64,
}

/// Energy used and time elapsed between two RAPL samples.
#[derive(Debug, Clone, Copy, PartialEq, Eq, Structural)]
pub struct EnergyDelta {
    /// Microjoules (counter wrap-around taken into account).
    pub energy_uj: u64,
    /// Nanoseconds, > 0.
    pub elapsed_ns: u64,
}

/// Bytes received / sent and time elapsed between two network samples.
#[derive(Debug, Clone, Copy, PartialEq, Eq, Structural)]
pub struct NetDelta {
    pub rx_bytes: u64,
    pub tx_bytes: u64,
    /// Nanoseconds, > 0.
    pub elapsed_ns: u64,
}

/// The collector's baselines: the previous sample of each rate, and the
/// network interface being watched. Times are monotonic nanoseconds.
#[derive(Debug, Clone)]
pub struct Collector {
    pub last_cpu: Option<CpuTimes>,
    pub last_rapl_energy_uj: Option<u64>,
    pub last_rapl_at_ns: Option<u64>,
    pub net_iface: Option<String>,
    pub last_net_rx: Option<u64>,
    pub last_net_tx: Option<u64>,
    pub last_net_at_ns: Option<u64>,
}

/// Energy consumed from `last` to `now` of a counter that wraps at `max_range`.
pub open spec fn energy_since(now: u64, last: u64, max_range: u64) -> u64 {
    if now >= last {
        (now - last) as u64
    } else {
        vstd::wrapping::u64_specs::wrapping_sub(vstd::wrapping::u64_specs::wrapping_add(now, max_range), last)
    }
}

impl Collector {
    /// A collector without baselines (the first sample of each rate gives none).
    pub fn new() -> (c: Self)
        ensures
            c.last_cpu is None,
            c.last_rapl_energy_uj is None,
            c.last_rapl_at_ns is None,
            c.net_iface is None,
            c.last_net_rx is None,
            c.last_net_tx is None,
            c.last_net_at_ns is None,
    {
        Collector {
            last_cpu: None,
            last_rapl_energy_uj: None,
            last_rapl_at_ns: None,
            net_iface: None,
            last_net_rx: None,
            last_net_tx: None,
            last_net_at_ns: None,
        }
    }

    /// Takes a /proc/stat sample (`None`: unreadable, which drops the baseline)
    /// and returns the counters elapsed since the previous one, if there was one.
    pub fn cpu_sample(&mut self, now: Option<CpuTimes>) -> (r: Option<CpuDelta>)
        ensures
            final(self).last_cpu == now,
            now is None ==> r is None,
            now matches Some(n) ==> r == match old(self).last_cpu {
                Some(p) => Some(CpuDelta { total: n.total.saturating_sub(p.total), idle: n.idle.saturating_sub(p.idle) }),
                None => None,
            },
            final(self).last_rapl_energy_uj == old(self).last_rapl_energy_uj,
            final(self).last_rapl_at_ns == old(self).last_rapl_at_ns,
            final(self).net_iface == old(self).net_iface,
            final(self).last_net_rx == old(self).last_net_rx,
            final(self).last_net_tx == old(self).last_net_tx,
            final(self).last_net_at_ns == old(self).last_net_at_ns,
    {
        match now {
            None => {
                self.last_cpu = None;
                None
            },
            Some(n) => {
                let r = match self.last_cpu {
                    Some(p) => Some(CpuDelta { total: n.total.saturating_sub(p.total), idle: n.idle.saturating_sub(p.idle) }),
                    None => None,
                };
                self.last_cpu = Some(n);
                r
            },
        }
    }

    /// Takes a RAPL sample (`None`: unreadable, which drops the baseline) at
    /// `now_ns` and returns the energy and time since the previous one, when
    /// there was one and time has passed.
    pub fn rapl_sample(&mut self, sample: Option<(u64, u64)>, now_ns: u64) -> (r: Option<EnergyDelta>)
        ensures
            sample is None ==> r is None && final(self).last_rapl_energy_uj is None && final(self).last_rapl_at_ns is None,
            sample matches Some(s) ==> {
                &&& final(self).last_rapl_energy_uj == Some(s.0)
                &&& final(self).last_rapl_at_ns == Some(now_ns)
                &&& r == match (old(self).last_rapl_energy_uj, old(self).last_rapl_at_ns) {
                    (Some(last), Some(at)) => if now_ns.saturating_sub(at) > 0 {
                        Some(EnergyDelta { energy_uj: energy_since(s.0, last, s.1), elapsed_ns: now_ns.saturating_sub(at) })
                    } else {
                        None
                    },
                    _ => None,
                }
            },
            final(self).last_cpu == old(self).last_cpu,
            final(self).net_iface == old(self).net_iface,
            final(self).last_net_rx == old(self).last_net_rx,
            final(self).last_net_tx == old(self).last_net_tx,
            final(self).last_net_at_ns == old(self).last_net_at_ns,
    {
        match sample {
            None => {
                self.last_rapl_energy_uj = None;
                self.last_rapl_at_ns = None;
                None
            },
            Some((energy, max_range)) => {
                let mut r = None;
                if let (Some(last), Some(at)) = (self.last_rapl_energy_uj, self.last_rapl_at_ns) {
                    let dt = now_ns.saturating_sub(at);
                    if dt > 0 {
                        let de = if energy >= last {
                            energy - last
                        } else {
                            energy.wrapping_add(max_range).wrapping_sub(last)
                        };
                        r = Some(EnergyDelta { energy_uj: de, elapsed_ns: dt });
                    }
                }
                self.last_rapl_energy_uj = Some(energy);
                self.last_rapl_at_ns = Some(now_ns);
                r
            },
        }
    }

    /// Takes the interface's rx/tx byte counters (`None`: no interface or
    /// unreadable, which keeps the baseline) at `now_ns` and returns the bytes
    /// and time since the previous sample, when there was one and time has passed.
    pub fn net_sample(&mut self, counters: Option<(u64, u64)>, now_ns: u64) -> (r: Option<NetDelta>)
        ensures
            counters is None ==> r is None && final(self).last_net_rx == old(self).last_net_rx
                && final(self).last_net_tx == old(self).last_net_tx && final(self).last_net_at_ns == old(self).last_net_at_ns,
            counters matches Some(c) ==> {
                &&& final(self).last_net_rx == Some(c.0)
                &&& final(self).last_net_tx == Some(c.1)
                &&& final(self).last_net_at_ns == Some(now_ns)
                &&& r == match (old(self).last_net_rx, old(self).last_net_tx, old(self).last_net_at_ns) {
                    (Some(lrx), Some(ltx), Some(at)) => if now_ns.saturating_sub(at) > 0 {
                        Some(NetDelta { rx_bytes: c.0.saturating_sub(lrx), tx_bytes: c.1.saturating_sub(ltx), elapsed_ns: now_ns.saturating_sub(at) })
                    } else {
                        None
                    },
                    _ => None,
                }
            },
            final(self).last_cpu == old(self).last_cpu,
            final(self).net_iface == old(self).net_iface,
            final(self).last_rapl_energy_uj == old(self).last_rapl_energy_uj,
            final(self).last_rapl_at_ns == old(self).last_rapl_at_ns,
    {
        match counters {
            None => None,
            Some((rx, tx)) => {
                let mut r = None;
                if let (Some(lrx), Some(ltx), Some(at)) = (self.last_net_rx, self.last_net_tx, self.last_net_at_ns) {
                    let dt = now_ns.saturating_sub(at);
                    if dt > 0 {
                        r = Some(NetDelta { rx_bytes: rx.saturating_sub(lrx), tx_bytes: tx.saturating_sub(ltx), elapsed_ns: dt });
                    }
                }
                self.last_net_rx = Some(rx);
                self.last_net_tx = Some(tx);
                self.last_net_at_ns = Some(now_ns);
                r
            },
        }
    }
}

/// The message-queue ids listed in a /proc/sysvipc/msg text: the second
/// column of every line after the header that has one and where it is an
/// `i32`, in order.
pub open spec fn queue_ids_of(ls: Seq<Seq<char>>) -> Seq<i32>
    decreases ls.len(),
{
    if ls.len() == 0 {
        seq![]
    } else {
        let r = queue_ids_of(ls.drop_last());
        let w = words_of(ls.last());
        if w.len() >= 2 && parse_i32_spec(w[1]) is Some {
            r.push(parse_i32_spec(w[1])->0)
        } else {
            r
        }
    }
}

/// The ids of the System V message queues listed in /proc/sysvipc/msg.
pub fn sysv_queue_ids(text: &str) -> (r: Vec<i32>)
    ensures
        lines_of(text@).len() == 0 ==> r@.len() == 0,
        lines_of(text@).len() > 0 ==> r@ == queue_ids_of(lines_of(text@).drop_first()),
{
    let cs = chars_of(text);
    let lines = line_spans(cs.as_slice());
    let ghost ls = lines_of(cs@);
    let mut ids: Vec<i32> = Vec::new();
    if lines.len() == 0 {
        return ids;
    }
    let mut k: usize = 1;
    assert(ls.drop_first().take(0) =~= Seq::<Seq<char>>::empty());
    while k < lines.len()
        invariant
            ls == lines_of(cs@),
            cs@ == text@,
            lines@.len() == ls.len(),
            forall|j: int|
                0 <= j < lines@.len() ==> #[trigger] lines@[j].0 <= lines@[j].1 <= cs@.len()
                    && cs@.subrange(lines@[j].0 as int, lines@[j].1 as int) == ls[j],
            1 <= k <= lines@.len(),
            ids@ == queue_ids_of(ls.drop_first().take(k - 1)),
        decreases lines@.len() - k,
    {
        let (a, b) = lines[k];
        let line = slice_subrange(cs.as_slice(), a, b);
        assert(ls.drop_first().take(k as int).drop_last() =~= ls.drop_first().take(k - 1));
        assert(ls.drop_first().take(k as int).last() == ls[k as int]);
        let w = word_spans(line);
        if w.len() >= 2 {
            let (wa, wb) = w[1];
            if let Some(id) = parse_i32(slice_subrange(line, wa, wb)) {
                ids.push(id);
            }
        }
        k = k + 1;
    }
    assert(ls.drop_first().take(k - 1) =~= ls.drop_first());
    ids
}

/// A missing or unreadable source reads as zero or as no value, never as a
/// failure: empty /proc/stat text gives no CPU counters (so no usage), empty
/// /proc/meminfo text 0 GB of RAM, empty /proc/mounts text no file system and
/// no file systems 0 GB of disk, a missing GPU metrics file no reading, no hwmon
/// chip 0 rpm, no powercap domain no energy counter (so no power), an empty
/// value file no number, an empty operstate "not up", and an empty queue list
/// no queue ids. (`Collector::new` reads nothing and cannot fail, and a missing
/// sample gives no rate: see `cpu_sample`, `rapl_sample` and `net_sample`.)
pub proof fn lemma_missing_sources_read_as_zero()
    ensures
        cpu_times_of(Seq::<char>::empty()) is None,
        ram_usage_of(Seq::<char>::empty()) == (0i32, 0i32),
        mount_scan(lines_of(Seq::<char>::empty())).1 == Seq::<Seq<char>>::empty(),
        disk_sums(Seq::<FsStats>::empty()) == (0u64, 0u64),
        gpu_reading_of(Seq::<u8>::empty()) is None,
        fan_rpm_of(Seq::<FanChip>::empty()) == 0,
        rapl_choice(Seq::<RaplDomain>::empty()) is None,
        parse_u64_spec(trimmed(Seq::<char>::empty())) is None,
        first_num_spec(Seq::<char>::empty()) == 0,
        trimmed(Seq::<char>::empty()) != "up"@,
        queue_ids_of(Seq::<Seq<char>>::empty()) == Seq::<i32>::empty(),
{
    reveal_strlit("up");
    assert(trimmed(Seq::<char>::empty()) =~= Seq::<char>::empty());
    assert(words_of(Seq::<char>::empty()) =~= Seq::<Seq<char>>::empty());
    assert(lines_of(Seq::<char>::empty()) =~= Seq::<Seq<char>>::empty());
}

} // verus!
