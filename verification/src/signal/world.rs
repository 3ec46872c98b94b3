//! World signals: OS metrics read from `/proc`.
//!
//! The caller reads the files; this module parses their text into cumulative
//! counters and turns successive readings into per-poll deltas.
use vstd::prelude::*;
use crate::signal::types::SignalId;
use crate::text::{after_first, chars_of, contains_run, has_char, has_prefix, has_run, is_digit, lines, parse_u64, parse_u64_spec, split_after_first, split_lines, split_whitespace, starts_with, str_prefix, trim, trim_chars, views, words};

verus! {

/// Well-known World signal IDs — parallel to the constants in main.rs.
pub struct WorldSignalIds {
    pub cpu_load: SignalId,
    pub net_rx: SignalId,
    pub net_tx: SignalId,
    pub disk_io: SignalId,
    pub uptime_cycle: SignalId,
    pub proc_count: SignalId,
    pub swap_used: SignalId,
    pub iowait: SignalId,
    pub ctx_switches: SignalId,
    pub mem_available: SignalId,
}

/// The value a field parses to, or 0 when it is not a `u64`
/// (`field.parse::<u64>().unwrap_or(0)`).
pub open spec fn parse_or_zero(s: Seq<char>) -> nat {
    match parse_u64_spec(s) {
        Some(v) => v as nat,
        None => 0,
    }
}

fn parse_or_zero_exec(s: &Vec<char>) -> (r: u64)
    ensures
        r == parse_or_zero(s@),
{
    match parse_u64(s) {
        Some(v) => v,
        None => 0,
    }
}

// ── /proc/net/dev ────────────────────────────────────────────────────────────

/// Received and transmitted bytes of one interface line: skipped for the
/// loopback interface; otherwise fields 0 and 8 after the first `:` when
/// there are at least nine.
pub open spec fn net_line(line: Seq<char>) -> (nat, nat) {
    let l = trim(line);
    if starts_with(l, "lo:"@) {
        (0, 0)
    } else {
        match after_first(l, ':') {
            Some(rest) => {
                let f = words(rest);
                if f.len() >= 9 {
                    (parse_or_zero(f[0]), parse_or_zero(f[8]))
                } else {
                    (0, 0)
                }
            },
            None => (0, 0),
        }
    }
}

pub open spec fn net_totals(ls: Seq<Seq<char>>) -> (nat, nat)
    decreases ls.len(),
{
    if ls.len() == 0 {
        (0, 0)
    } else {
        let (a, b) = net_totals(ls.drop_last());
        let (x, y) = net_line(ls.last());
        (a + x, b + y)
    }
}

/// `s` without its first `n` items (empty when shorter).
pub open spec fn skip_n<A>(s: Seq<A>, n: int) -> Seq<A> {
    if s.len() >= n {
        s.skip(n)
    } else {
        Seq::empty()
    }
}

/// Summed (rx, tx) bytes over all non-loopback interfaces of `/proc/net/dev`
/// (whose first two lines are headers).
pub open spec fn net_dev_totals(content: Seq<char>) -> (nat, nat) {
    net_totals(skip_n(lines(content), 2))
}

/// Parses `/proc/net/dev`: the cumulative received and transmitted bytes
/// summed over all non-loopback interfaces. `None` when a sum does not fit in
/// a `u64`.
pub fn parse_net_dev(content: &str) -> (r: Option<(u64, u64)>)
    ensures
        r == (if net_dev_totals(content@).0 <= u64::MAX && net_dev_totals(content@).1 <= u64::MAX {
            Some((net_dev_totals(content@).0 as u64, net_dev_totals(content@).1 as u64))
        } else {
            None
        }),
{
    let cs = chars_of(content);
    let ls = split_lines(&cs);
    let ghost all = views(ls@);
    let ghost body = skip_n(all, 2);
    let mut rx: u64 = 0;
    let mut tx: u64 = 0;
    let mut overflow = false;
    let mut k: usize = 2;
    if ls.len() < 2 {
        assert(body =~= Seq::<Seq<char>>::empty());
        return Some((0, 0));
    }
    let colon_prefix = chars_of("lo:");
    while k < ls.len()
        invariant
            all == views(ls@),
            all.len() >= 2,
            body == all.skip(2),
            2 <= k <= all.len(),
            colon_prefix@ == "lo:"@,
            !overflow ==> rx == net_totals(body.take(k - 2)).0 && tx == net_totals(body.take(k - 2)).1,
            overflow ==> net_totals(body.take(k - 2)).0 > u64::MAX || net_totals(body.take(k - 2)).1 > u64::MAX,
        decreases all.len() - k,
    {
        let line = trim_chars(&ls[k]);
        let ghost pre = body.take(k - 2);
        proof {
            assert(body.take(k + 1 - 2).drop_last() =~= pre);
            assert(body.take(k + 1 - 2).last() == all[k as int]);
            assert(all[k as int] == ls@[k as int]@);
        }
        let mut x: u64 = 0;
        let mut y: u64 = 0;
        if !has_prefix(&line, &colon_prefix) {
            match split_after_first(&line, ':') {
                Some(rest) => {
                    let f = split_whitespace(&rest);
                    if f.len() >= 9 {
                        x = parse_or_zero_exec(&f[0]);
                        y = parse_or_zero_exec(&f[8]);
                    }
                },
                None => {},
            }
        }
        assert(x == net_line(all[k as int]).0 && y == net_line(all[k as int]).1);
        if !overflow {
            match (rx.checked_add(x), tx.checked_add(y)) {
                (Some(a), Some(b)) => {
                    rx = a;
                    tx = b;
                },
                _ => {
                    overflow = true;
                },
            }
        }
        k = k + 1;
    }
    assert(body.take(all.len() - 2) =~= body);
    if overflow {
        None
    } else {
        Some((rx, tx))
    }
}

// ── /proc/diskstats ──────────────────────────────────────────────────────────

/// Whether a device name is a whole disk (not a partition) of a counted kind.
pub open spec fn is_whole_disk(dev: Seq<char>) -> bool {
    let kind = starts_with(dev, "sd"@) || starts_with(dev, "vd"@) || starts_with(dev, "nvme"@)
        || starts_with(dev, "xvd"@) || starts_with(dev, "hd"@);
    let digit_suffix = dev.len() > 0 && is_digit(dev.last());
    let partition = if contains_run(dev, "nvme"@) {
        dev.contains('p') && digit_suffix
    } else {
        digit_suffix
    };
    kind && !partition
}

/// Sectors read plus sectors written by one `/proc/diskstats` line, counted
/// only for whole disks on lines with at least fourteen fields.
pub open spec fn disk_line(line: Seq<char>) -> nat {
    let f = words(line);
    if f.len() >= 14 && is_whole_disk(f[2]) {
        parse_or_zero(f[5]) + parse_or_zero(f[9])
    } else {
        0
    }
}

pub open spec fn disk_totals(ls: Seq<Seq<char>>) -> nat
    decreases ls.len(),
{
    if ls.len() == 0 {
        0
    } else {
        disk_totals(ls.drop_last()) + disk_line(ls.last())
    }
}

fn is_whole_disk_exec(dev: &Vec<char>) -> (r: bool)
    ensures
        r == is_whole_disk(dev@),
{
    let kind = str_prefix(dev, "sd") || str_prefix(dev, "vd") || str_prefix(dev, "nvme")
        || str_prefix(dev, "xvd") || str_prefix(dev, "hd");
    let digit_suffix = dev.len() > 0 && ('0' <= dev[dev.len() - 1] && dev[dev.len() - 1] <= '9');
    let nvme = chars_of("nvme");
    let partition = if has_run(dev, &nvme) {
        has_char(dev, 'p') && digit_suffix
    } else {
        digit_suffix
    };
    kind && !partition
}

/// Parses `/proc/diskstats`: sectors read plus written, summed over whole
/// disks (`sd*`, `vd*`, `nvme*`, `xvd*`, `hd*`, partitions excluded). `None`
/// when the sum does not fit in a `u64`.
pub fn parse_diskstats(content: &str) -> (r: Option<u64>)
    ensures
        r == (if disk_totals(lines(content@)) <= u64::MAX {
            Some(disk_totals(lines(content@)) as u64)
        } else {
            None
        }),
{
    let cs = chars_of(content);
    let ls = split_lines(&cs);
    let ghost all = views(ls@);
    let mut total: u64 = 0;
    let mut overflow = false;
    let mut k: usize = 0;
    while k < ls.len()
        invariant
            all == views(ls@),
            k <= all.len(),
            !overflow ==> total == disk_totals(all.take(k as int)),
            overflow ==> disk_totals(all.take(k as int)) > u64::MAX,
        decreases all.len() - k,
    {
        let f = split_whitespace(&ls[k]);
        proof {
            assert(all.take(k + 1).drop_last() =~= all.take(k as int));
            assert(all.take(k + 1).last() == ls@[k as int]@);
        }
        let mut v: u64 = 0;
        let mut counted = false;
        if f.len() >= 14 {
            if is_whole_disk_exec(&f[2]) {
                let a = parse_or_zero_exec(&f[5]);
                let b = parse_or_zero_exec(&f[9]);
                match a.checked_add(b) {
                    Some(s) => {
                        v = s;
                    },
                    None => {
                        overflow = true;
                    },
                }
                counted = true;
            }
        }
        assert(!overflow ==> v == disk_line(all[k as int]));
        if !overflow {
            match total.checked_add(v) {
                Some(t) => {
                    total = t;
                },
                None => {
                    overflow = true;
                },
            }
        }
        k = k + 1;
    }
    assert(all.take(all.len() as int) =~= all);
    if overflow {
        None
    } else {
        Some(total)
    }
}

/// `c` is a lowercase ASCII letter.
pub open spec fn is_lower(c: char) -> bool {
    'a' <= c && c <= 'z'
}

/// The device kinds whose whole disks are counted, by the letters their
/// names start with (other than NVMe).
pub open spec fn disk_kind_prefix(p: Seq<char>) -> bool {
    p == "sd"@ || p == "vd"@ || p == "xvd"@ || p == "hd"@
}

proof fn reveal_disk_literals()
    ensures
        "sd"@ == seq!['s', 'd'],
        "vd"@ == seq!['v', 'd'],
        "xvd"@ == seq!['x', 'v', 'd'],
        "hd"@ == seq!['h', 'd'],
        "nvme"@ == seq!['n', 'v', 'm', 'e'],
        "n"@ == seq!['n'],
        "p"@ == seq!['p'],
{
    reveal_strlit("sd");
    reveal_strlit("vd");
    reveal_strlit("xvd");
    reveal_strlit("hd");
    reveal_strlit("nvme");
    reveal_strlit("n");
    reveal_strlit("p");
}

/// Whole SCSI/SATA, virtio, Xen and IDE disks count: a line of at least
/// fourteen fields whose device is `sd`, `vd`, `xvd` or `hd` followed by
/// letters only (as `sda`, `vdb`, `xvdf`) adds its sectors read (field 5)
/// and written (field 9).
pub proof fn law_whole_disks_counted(line: Seq<char>, prefix: Seq<char>, letters: Seq<char>)
    requires
        disk_kind_prefix(prefix),
        forall|i: int| 0 <= i < letters.len() ==> is_lower(#[trigger] letters[i]),
        words(line).len() >= 14,
        words(line)[2] == prefix + letters,
    ensures
        disk_line(line) == parse_or_zero(words(line)[5]) + parse_or_zero(words(line)[9]),
{
    reveal_disk_literals();
    let dev = prefix + letters;
    assert(dev.subrange(0, prefix.len() as int) =~= prefix);
    assert(starts_with(dev, prefix));
    if letters.len() > 0 {
        assert(dev.last() == letters[letters.len() - 1]);
        assert(is_lower(letters[letters.len() - 1]));
    } else {
        assert(dev.last() == prefix.last());
        assert(prefix.last() == 'd');
    }
    assert(!is_digit(dev.last()));
}

/// The name `nvme<a>n<b>` starts with and contains `nvme`, has no `p`, and
/// ends in a digit.
proof fn lemma_nvme_disk_name(a: Seq<char>, b: Seq<char>)
    requires
        b.len() > 0,
        forall|i: int| 0 <= i < a.len() ==> is_digit(#[trigger] a[i]),
        forall|i: int| 0 <= i < b.len() ==> is_digit(#[trigger] b[i]),
    ensures
        starts_with("nvme"@ + a + "n"@ + b, "nvme"@),
        contains_run("nvme"@ + a + "n"@ + b, "nvme"@),
        !("nvme"@ + a + "n"@ + b).contains('p'),
        is_digit(("nvme"@ + a + "n"@ + b).last()),
{
    reveal_disk_literals();
    let dev = "nvme"@ + a + "n"@ + b;
    assert(dev.subrange(0, 4) =~= "nvme"@);
    assert(dev.subrange(0int, 0int + "nvme"@.len()) == "nvme"@);
    assert(dev.last() == b[b.len() - 1]);
    assert forall|i: int| 0 <= i < dev.len() implies dev[i] != 'p' by {
        if i < 4 {
            assert(dev[i] == "nvme"@[i]);
        } else if i < 4 + a.len() {
            assert(dev[i] == a[i - 4]);
        } else if i == 4 + a.len() {
            assert(dev[i] == 'n');
        } else {
            assert(dev[i] == b[i - 5 - a.len()]);
        }
    }
}

/// Whole NVMe disks count: a device `nvme<a>n<b>` (as `nvme0n1`), with `a`
/// and `b` digits, adds its sectors read and written.
pub proof fn law_nvme_disks_counted(line: Seq<char>, a: Seq<char>, b: Seq<char>)
    requires
        a.len() > 0,
        b.len() > 0,
        forall|i: int| 0 <= i < a.len() ==> is_digit(#[trigger] a[i]),
        forall|i: int| 0 <= i < b.len() ==> is_digit(#[trigger] b[i]),
        words(line).len() >= 14,
        words(line)[2] == "nvme"@ + a + "n"@ + b,
    ensures
        disk_line(line) == parse_or_zero(words(line)[5]) + parse_or_zero(words(line)[9]),
{
    lemma_nvme_disk_name(a, b);
}

/// Partitions do not count: a device `sd`, `vd`, `xvd` or `hd`, then
/// letters, then a partition number (as `sda1`, `vdb12`) adds nothing.
pub proof fn law_partitions_not_counted(line: Seq<char>, prefix: Seq<char>, letters: Seq<char>, digits: Seq<char>)
    requires
        disk_kind_prefix(prefix),
        forall|i: int| 0 <= i < letters.len() ==> is_lower(#[trigger] letters[i]) && letters[i] != 'n',
        digits.len() > 0,
        forall|i: int| 0 <= i < digits.len() ==> is_digit(#[trigger] digits[i]),
        words(line).len() > 2,
        words(line)[2] == prefix + letters + digits,
    ensures
        disk_line(line) == 0,
{
    reveal_disk_literals();
    let dev = prefix + letters + digits;
    assert(dev.last() == digits[digits.len() - 1]);
    assert forall|i: int| 0 <= i < dev.len() implies dev[i] != 'n' by {
        if i < prefix.len() {
            assert(dev[i] == prefix[i]);
        } else if i < prefix.len() + letters.len() {
            assert(dev[i] == letters[i - prefix.len()]);
        } else {
            assert(dev[i] == digits[i - prefix.len() - letters.len()]);
        }
    }
    assert(!contains_run(dev, "nvme"@)) by {
        if contains_run(dev, "nvme"@) {
            let i = choose|i: int| 0 <= i && i + "nvme"@.len() <= dev.len() && #[trigger] dev.subrange(i, i + "nvme"@.len()) == "nvme"@;
            assert(dev.subrange(i, i + 4)[0] == dev[i]);
        }
    }
}

/// NVMe partitions do not count: a device `nvme<a>n<b>p<c>` (as
/// `nvme0n1p2`), with `c` a partition number, adds nothing.
pub proof fn law_nvme_partitions_not_counted(line: Seq<char>, a: Seq<char>, b: Seq<char>, c: Seq<char>)
    requires
        c.len() > 0,
        forall|i: int| 0 <= i < c.len() ==> is_digit(#[trigger] c[i]),
        words(line).len() > 2,
        words(line)[2] == "nvme"@ + a + "n"@ + b + "p"@ + c,
    ensures
        disk_line(line) == 0,
{
    reveal_disk_literals();
    let dev = "nvme"@ + a + "n"@ + b + "p"@ + c;
    assert(dev.subrange(0, 4) =~= "nvme"@);
    assert(dev.subrange(0int, 0int + "nvme"@.len()) == "nvme"@);
    assert(contains_run(dev, "nvme"@));
    assert(dev[(4 + a.len() + 1 + b.len()) as int] == 'p');
    assert(dev.contains('p'));
    assert(dev.last() == c[c.len() - 1]);
}

/// Other devices do not count: a device whose name starts with none of the
/// counted kinds' letters (as `loop0`, `dm-0`, `md127`, `sr0`), or a line
/// with fewer than fourteen fields, adds nothing.
pub proof fn law_other_devices_not_counted(line: Seq<char>)
    requires
        words(line).len() < 14 || words(line)[2].len() == 0 || {
            let c = words(line)[2][0];
            c != 's' && c != 'v' && c != 'x' && c != 'h' && c != 'n'
        },
    ensures
        disk_line(line) == 0,
{
    reveal_disk_literals();
    if words(line).len() >= 14 && words(line)[2].len() > 0 {
        let dev = words(line)[2];
        assert(!starts_with(dev, "sd"@)) by { if starts_with(dev, "sd"@) { assert(dev.subrange(0, 2)[0] == dev[0]); } }
        assert(!starts_with(dev, "vd"@)) by { if starts_with(dev, "vd"@) { assert(dev.subrange(0, 2)[0] == dev[0]); } }
        assert(!starts_with(dev, "xvd"@)) by { if starts_with(dev, "xvd"@) { assert(dev.subrange(0, 3)[0] == dev[0]); } }
        assert(!starts_with(dev, "hd"@)) by { if starts_with(dev, "hd"@) { assert(dev.subrange(0, 2)[0] == dev[0]); } }
        assert(!starts_with(dev, "nvme"@)) by { if starts_with(dev, "nvme"@) { assert(dev.subrange(0, 4)[0] == dev[0]); } }
    }
}

// ── /proc/stat ───────────────────────────────────────────────────────────────

/// Sum of a sequence of counters.
pub open spec fn sum_u64(s: Seq<u64>) -> nat
    decreases s.len(),
{
    if s.len() == 0 {
        0
    } else {
        sum_u64(s.drop_last()) + s.last() as nat
    }
}

/// The numeric fields of the first line of `/proc/stat` after its label.
pub open spec fn cpu_fields(content: Seq<char>) -> Seq<u64> {
    let ls = lines(content);
    if ls.len() == 0 {
        Seq::empty()
    } else {
        skip_n(words(ls[0]), 1).filter_map(|w: Seq<char>| parse_u64_spec(w))
    }
}

/// (total jiffies, iowait jiffies) of `/proc/stat`: the sum of all numeric
/// fields of the `cpu` line and its fifth field, or (0, 0) when the line has
/// fewer than five numeric fields.
pub open spec fn cpu_stat(content: Seq<char>) -> (nat, nat) {
    let f = cpu_fields(content);
    if f.len() >= 5 {
        (sum_u64(f), f[4] as nat)
    } else {
        (0, 0)
    }
}

/// Parses `/proc/stat`: cumulative (total, iowait) jiffies of the aggregate
/// `cpu` line. `None` when the total does not fit in a `u64`.
pub fn parse_cpu_stat(content: &str) -> (r: Option<(u64, u64)>)
    ensures
        r == (if cpu_stat(content@).0 <= u64::MAX {
            Some((cpu_stat(content@).0 as u64, cpu_stat(content@).1 as u64))
        } else {
            None
        }),
{
    let cs = chars_of(content);
    let ls = split_lines(&cs);
    if ls.len() == 0 {
        assert(cpu_fields(content@) =~= Seq::<u64>::empty());
        return Some((0, 0));
    }
    let w = split_whitespace(&ls[0]);
    let ghost ws = views(w@);
    let ghost f = |x: Seq<char>| parse_u64_spec(x);
    assert(ws == words(lines(content@)[0]));
    let mut nums: Vec<u64> = Vec::new();
    if w.len() >= 1 {
        let mut k: usize = 1;
        assert(ws.skip(1).take(0) =~= Seq::<Seq<char>>::empty());
        assert(Seq::<Seq<char>>::empty().filter_map(f) =~= Seq::<u64>::empty()) by {
            reveal_with_fuel(Seq::filter_map, 1);
        }
        while k < w.len()
            invariant
                ws == views(w@),
                ws.len() >= 1,
                1 <= k <= ws.len(),
                f == (|x: Seq<char>| parse_u64_spec(x)),
                nums@ == ws.skip(1).take(k - 1).filter_map(f),
            decreases ws.len() - k,
        {
            proof {
                let t = ws.skip(1).take(k - 1);
                assert(ws.skip(1).take(k as int) =~= t.push(ws[k as int]));
                reveal_with_fuel(Seq::filter_map, 1);
                assert(t.push(ws[k as int]).drop_last() =~= t);
            }
            match crate::text::parse_u64(&w[k]) {
                Some(v) => {
                    nums.push(v);
                    proof {
                        reveal_with_fuel(Seq::filter_map, 1);
                        assert(nums@ =~= ws.skip(1).take(k as int).filter_map(f));
                    }
                },
                None => {},
            }
            k = k + 1;
        }
        assert(ws.skip(1).take(ws.len() - 1) =~= ws.skip(1));
    } else {
        assert(skip_n(ws, 1) =~= Seq::<Seq<char>>::empty());
        assert(Seq::<Seq<char>>::empty().filter_map(f) =~= Seq::<u64>::empty()) by {
            reveal_with_fuel(Seq::filter_map, 1);
        }
    }
    assert(nums@ == cpu_fields(content@));
    if nums.len() < 5 {
        return Some((0, 0));
    }
    let mut total: u64 = 0;
    let mut k: usize = 0;
    while k < nums.len()
        invariant
            k <= nums@.len(),
            nums@.len() >= 5,
            nums@ == cpu_fields(content@),
            total == sum_u64(nums@.take(k as int)),
        decreases nums@.len() - k,
    {
        assert(nums@.take(k + 1).drop_last() =~= nums@.take(k as int));
        assert(nums@.take(k + 1).last() == nums@[k as int]);
        assert(sum_u64(nums@.take(k + 1)) == total + nums@[k as int]);
        match total.checked_add(nums[k]) {
            Some(t) => {
                total = t;
            },
            None => {
                proof {
                    lemma_sum_prefix(nums@, k + 1);
                }
                return None;
            },
        }
        k = k + 1;
    }
    assert(nums@.take(nums@.len() as int) =~= nums@);
    Some((total, nums[4]))
}

pub proof fn lemma_sum_prefix(s: Seq<u64>, k: int)
    requires
        0 <= k <= s.len(),
    ensures
        sum_u64(s.take(k)) <= sum_u64(s),
    decreases s.len() - k,
{
    if k < s.len() {
        lemma_sum_prefix(s, k + 1);
        assert(s.take(k + 1).drop_last() =~= s.take(k));
    } else {
        assert(s.take(k) =~= s);
    }
}

// ── /proc/self/status ────────────────────────────────────────────────────────

/// The second whitespace field of a line, parsed (0 when absent or not a number).
pub open spec fn second_field(line: Seq<char>) -> Option<nat> {
    let f = words(line);
    if f.len() >= 2 {
        Some(parse_or_zero(f[1]))
    } else {
        None
    }
}

fn second_field_exec(line: &Vec<char>) -> (r: Option<u64>)
    ensures
        match r {
            Some(v) => second_field(line@) == Some(v as nat),
            None => second_field(line@) is None,
        },
{
    let f = split_whitespace(line);
    if f.len() >= 2 {
        Some(parse_or_zero_exec(&f[1]))
    } else {
        None
    }
}

/// Context switches counted by one line of `/proc/self/status`.
pub open spec fn ctx_line(line: Seq<char>) -> nat {
    if starts_with(line, "voluntary_ctxt_switches:"@) || starts_with(line, "nonvoluntary_ctxt_switches:"@) {
        match second_field(line) {
            Some(v) => v,
            None => 0,
        }
    } else {
        0
    }
}

pub open spec fn ctx_totals(ls: Seq<Seq<char>>) -> nat
    decreases ls.len(),
{
    if ls.len() == 0 {
        0
    } else {
        ctx_totals(ls.drop_last()) + ctx_line(ls.last())
    }
}

/// Parses `/proc/self/status`: voluntary plus nonvoluntary context switches.
/// `None` when the sum does not fit in a `u64`.
pub fn parse_ctx_switches(content: &str) -> (r: Option<u64>)
    ensures
        r == (if ctx_totals(lines(content@)) <= u64::MAX {
            Some(ctx_totals(lines(content@)) as u64)
        } else {
            None
        }),
{
    let cs = chars_of(content);
    let ls = split_lines(&cs);
    let ghost all = views(ls@);
    let mut total: u64 = 0;
    let mut k: usize = 0;
    while k < ls.len()
        invariant
            all == views(ls@),
            all == lines(content@),
            k <= all.len(),
            total == ctx_totals(all.take(k as int)),
        decreases all.len() - k,
    {
        proof {
            assert(all.take(k + 1).drop_last() =~= all.take(k as int));
            assert(all.take(k + 1).last() == ls@[k as int]@);
        }
        let line = &ls[k];
        let mut v: u64 = 0;
        if str_prefix(line, "voluntary_ctxt_switches:") || str_prefix(line, "nonvoluntary_ctxt_switches:") {
            match second_field_exec(line) {
                Some(x) => {
                    v = x;
                },
                None => {},
            }
        }
        assert(v == ctx_line(all[k as int]));
        assert(ctx_totals(all.take(k + 1)) == total + v);
        match total.checked_add(v) {
            Some(t) => {
                total = t;
            },
            None => {
                proof {
                    lemma_ctx_prefix(all, k + 1);
                }
                return None;
            },
        }
        k = k + 1;
    }
    assert(all.take(all.len() as int) =~= all);
    Some(total)
}

pub proof fn lemma_ctx_prefix(s: Seq<Seq<char>>, k: int)
    requires
        0 <= k <= s.len(),
    ensures
        ctx_totals(s.take(k)) <= ctx_totals(s),
    decreases s.len() - k,
{
    if k < s.len() {
        lemma_ctx_prefix(s, k + 1);
        assert(s.take(k + 1).drop_last() =~= s.take(k));
    } else {
        assert(s.take(k) =~= s);
    }
}

// ── /proc/meminfo ────────────────────────────────────────────────────────────

/// (SwapTotal, swap used) after reading `ls` in order: a `SwapTotal:` line
/// sets the total; a `SwapFree:` line sets the used amount to the current
/// total minus the free amount (saturating at 0).
pub open spec fn swap_state(ls: Seq<Seq<char>>) -> (nat, nat)
    decreases ls.len(),
{
    if ls.len() == 0 {
        (0, 0)
    } else {
        let (total, used) = swap_state(ls.drop_last());
        let l = ls.last();
        if starts_with(l, "SwapTotal:"@) {
            match second_field(l) {
                Some(v) => (v, used),
                None => (total, used),
            }
        } else if starts_with(l, "SwapFree:"@) {
            match second_field(l) {
                Some(free) => (total, if total >= free { (total - free) as nat } else { 0 }),
                None => (total, used),
            }
        } else {
            (total, used)
        }
    }
}

/// Parses `/proc/meminfo` for swap: (SwapTotal, SwapTotal − SwapFree) in kB.
pub fn parse_swap(content: &str) -> (r: (u64, u64))
    ensures
        r.0 as nat == swap_state(lines(content@)).0,
        r.1 as nat == swap_state(lines(content@)).1,
{
    let cs = chars_of(content);
    let ls = split_lines(&cs);
    let ghost all = views(ls@);
    let mut total: u64 = 0;
    let mut used: u64 = 0;
    let mut k: usize = 0;
    while k < ls.len()
        invariant
            all == views(ls@),
            k <= all.len(),
            total as nat == swap_state(all.take(k as int)).0,
            used as nat == swap_state(all.take(k as int)).1,
        decreases all.len() - k,
    {
        proof {
            assert(all.take(k + 1).drop_last() =~= all.take(k as int));
            assert(all.take(k + 1).last() == ls@[k as int]@);
        }
        let line = &ls[k];
        if str_prefix(line, "SwapTotal:") {
            match second_field_exec(line) {
                Some(v) => {
                    total = v;
                },
                None => {},
            }
        } else if str_prefix(line, "SwapFree:") {
            match second_field_exec(line) {
                Some(free) => {
                    used = total.saturating_sub(free);
                },
                None => {},
            }
        }
        k = k + 1;
    }
    assert(all.take(all.len() as int) =~= all);
    (total, used)
}

/// (MemTotal, MemAvailable) after reading `ls` in order; the last line of
/// each kind wins.
pub open spec fn mem_state(ls: Seq<Seq<char>>) -> (nat, nat)
    decreases ls.len(),
{
    if ls.len() == 0 {
        (0, 0)
    } else {
        let (total, avail) = mem_state(ls.drop_last());
        let l = ls.last();
        if starts_with(l, "MemTotal:"@) {
            match second_field(l) {
                Some(v) => (v, avail),
                None => (total, avail),
            }
        } else if starts_with(l, "MemAvailable:"@) {
            match second_field(l) {
                Some(v) => (total, v),
                None => (total, avail),
            }
        } else {
            (total, avail)
        }
    }
}

/// Parses `/proc/meminfo` for memory: (MemTotal, MemAvailable) in kB.
pub fn parse_mem_available(content: &str) -> (r: (u64, u64))
    ensures
        r.0 as nat == mem_state(lines(content@)).0,
        r.1 as nat == mem_state(lines(content@)).1,
{
    let cs = chars_of(content);
    let ls = split_lines(&cs);
    let ghost all = views(ls@);
    let mut total: u64 = 0;
    let mut avail: u64 = 0;
    let mut k: usize = 0;
    while k < ls.len()
        invariant
            all == views(ls@),
            k <= all.len(),
            total as nat == mem_state(all.take(k as int)).0,
            avail as nat == mem_state(all.take(k as int)).1,
        decreases all.len() - k,
    {
        proof {
            assert(all.take(k + 1).drop_last() =~= all.take(k as int));
            assert(all.take(k + 1).last() == ls@[k as int]@);
        }
        let line = &ls[k];
        if str_prefix(line, "MemTotal:") {
            match second_field_exec(line) {
                Some(v) => {
                    total = v;
                },
                None => {},
            }
        } else if str_prefix(line, "MemAvailable:") {
            match second_field_exec(line) {
                Some(v) => {
                    avail = v;
                },
                None => {},
            }
        }
        k = k + 1;
    }
    assert(all.take(all.len() as int) =~= all);
    (total, avail)
}

// ── Poller state ─────────────────────────────────────────────────────────────

/// One reading of the cumulative OS counters, or the deltas between two readings.
#[derive(Clone, Copy, Debug, PartialEq, Eq)]
pub struct WorldCounters {
    pub net_rx_bytes: u64,
    pub net_tx_bytes: u64,
    pub disk_sectors: u64,
    pub cpu_total: u64,
    pub cpu_iowait: u64,
    pub ctx_switches: u64,
}

/// `a - b`, or 0 when `b > a`.
pub open spec fn sat_sub(a: u64, b: u64) -> u64 {
    if a >= b { (a - b) as u64 } else { 0 }
}

/// Polls OS metrics every N ticks. Net, disk, iowait and context-switch
/// metrics are delta-based (since the last poll). On the first call the
/// readings are only stored — this avoids a spurious spike from an unknown
/// cumulative starting point.
pub struct WorldSignalPoller {
    prev_net_rx_bytes: u64,
    prev_net_tx_bytes: u64,
    prev_disk_sectors: u64,
    prev_cpu_total: u64,
    prev_cpu_iowait: u64,
    prev_ctx_switches: u64,
    initialized: bool,
}

impl WorldSignalPoller {
    /// The last stored reading.
    pub closed spec fn previous(&self) -> WorldCounters {
        WorldCounters {
            net_rx_bytes: self.prev_net_rx_bytes,
            net_tx_bytes: self.prev_net_tx_bytes,
            disk_sectors: self.prev_disk_sectors,
            cpu_total: self.prev_cpu_total,
            cpu_iowait: self.prev_cpu_iowait,
            ctx_switches: self.prev_ctx_switches,
        }
    }

    /// Whether a reading has been stored yet.
    pub closed spec fn is_initialized(&self) -> bool {
        self.initialized
    }

    pub fn new() -> (p: WorldSignalPoller)
        ensures
            !p.is_initialized(),
            p.previous() == (WorldCounters {
                net_rx_bytes: 0,
                net_tx_bytes: 0,
                disk_sectors: 0,
                cpu_total: 0,
                cpu_iowait: 0,
                ctx_switches: 0,
            }),
    {
        WorldSignalPoller {
            prev_net_rx_bytes: 0,
            prev_net_tx_bytes: 0,
            prev_disk_sectors: 0,
            prev_cpu_total: 0,
            prev_cpu_iowait: 0,
            prev_ctx_switches: 0,
            initialized: false,
        }
    }

    /// Takes a new reading. The first call only stores it and returns `None`;
    /// later calls return the per-counter deltas since the previous reading
    /// (saturating at 0 when a counter went backwards). The reading is stored
    /// either way.
    pub fn poll(&mut self, now: WorldCounters) -> (deltas: Option<WorldCounters>)
        ensures
            final(self).is_initialized(),
            final(self).previous() == now,
            !old(self).is_initialized() ==> deltas is None,
            old(self).is_initialized() ==> deltas == Some(WorldCounters {
                net_rx_bytes: sat_sub(now.net_rx_bytes, old(self).previous().net_rx_bytes),
                net_tx_bytes: sat_sub(now.net_tx_bytes, old(self).previous().net_tx_bytes),
                disk_sectors: sat_sub(now.disk_sectors, old(self).previous().disk_sectors),
                cpu_total: sat_sub(now.cpu_total, old(self).previous().cpu_total),
                cpu_iowait: sat_sub(now.cpu_iowait, old(self).previous().cpu_iowait),
                ctx_switches: sat_sub(now.ctx_switches, old(self).previous().ctx_switches),
            }),
    {
        let result = if !self.initialized {
            None
        } else {
            Some(WorldCounters {
                net_rx_bytes: now.net_rx_bytes.saturating_sub(self.prev_net_rx_bytes),
                net_tx_bytes: now.net_tx_bytes.saturating_sub(self.prev_net_tx_bytes),
                disk_sectors: now.disk_sectors.saturating_sub(self.prev_disk_sectors),
                cpu_total: now.cpu_total.saturating_sub(self.prev_cpu_total),
                cpu_iowait: now.cpu_iowait.saturating_sub(self.prev_cpu_iowait),
                ctx_switches: now.ctx_switches.saturating_sub(self.prev_ctx_switches),
            })
        };
        self.prev_net_rx_bytes = now.net_rx_bytes;
        self.prev_net_tx_bytes = now.net_tx_bytes;
        self.prev_disk_sectors = now.disk_sectors;
        self.prev_cpu_total = now.cpu_total;
        self.prev_cpu_iowait = now.cpu_iowait;
        self.prev_ctx_switches = now.ctx_switches;
        self.initialized = true;
        result
    }
}

} // verus!
