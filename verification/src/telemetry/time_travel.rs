//! Snapshots of the execution state at a failure, and the parsing of what
//! the operating system reports about the process.
use vstd::prelude::*;
use crate::text::{owned, 
    to_uppercase, uppercase, str_eq, contains_str, contains_chars, slice_of,
    chars_of, contains, extend_chars, extend_str, find_char_exec, lines, lines_of, split_char,
    split_char_of, split_whitespace_of, split_ws, string_of, strs, views,
};

verus! {

/// A local variable in a stack frame.
#[derive(Clone, Debug)]
pub struct LocalVariable {
    pub name: String,
    /// Source-level type.
    pub source_type: String,
    /// Memory address, if known.
    pub address: Option<u64>,
    /// Value (string representation).
    pub value: String,
}

/// A region of heap memory.
#[derive(Clone, Debug)]
pub struct HeapRegion {
    pub start_addr: u64,
    /// Size in bytes.
    pub size: usize,
    /// Captured data (truncated if large).
    pub data: Vec<u8>,
}

/// CPU registers (x86-64).
#[derive(Clone, Debug)]
pub struct RegisterSnapshot {
    pub rax: u64,
    pub rbx: u64,
    pub rcx: u64,
    pub rdx: u64,
    pub rsi: u64,
    pub rdi: u64,
    pub rbp: u64,
    pub rsp: u64,
    pub r8: u64,
    pub r9: u64,
    pub r10: u64,
    pub r11: u64,
    pub r12: u64,
    pub r13: u64,
    pub r14: u64,
    pub r15: u64,
}

/// Process information.
#[derive(Clone, Debug)]
pub struct ProcessInfo {
    pub pid: u32,
    pub ppid: u32,
    pub uid: u32,
    pub gid: u32,
}

/// A stack frame snapshot.
#[derive(Clone, Debug)]
pub struct StackFrameSnapshot {
    /// Function name (from the symbol table).
    pub function_name: String,
    /// Source file path.
    pub file_path: String,
    pub line_number: u32,
    pub column: u32,
    /// Local variables captured, by name.
    pub local_variables: Vec<(String, LocalVariable)>,
    /// Return address (PC).
    pub instruction_pointer: u64,
    pub frame_pointer: u64,
}

/// Complete snapshot of the execution state at a panic.
#[derive(Clone, Debug)]
pub struct TimeTravelSnapshot {
    /// Stack frames with local variables (if debug info is available).
    pub stack_frames: Vec<StackFrameSnapshot>,
    /// Key memory regions from the heap.
    pub heap_regions: Vec<HeapRegion>,
    pub registers: RegisterSnapshot,
    /// Current working directory.
    pub cwd: String,
    /// Environment variables (name, value), secrets redacted.
    pub env_vars: Vec<(String, String)>,
    pub process_info: ProcessInfo,
    /// System time at capture.
    pub system_time_ns: u64,
}

/// Telemetry system for capturing execution state at panic moments.
#[derive(Clone)]
pub struct TimeTravelTelemetry;

// ------------------------------------------------------------ numbers

/// Value of a digit character in the given radix (up to 16).
pub open spec fn digit_value(c: char, radix: nat) -> Option<nat> {
    let v = c as u32;
    let d: int = if 48 <= v <= 57 {
        v - 48
    } else if 97 <= v <= 102 {
        v - 87
    } else if 65 <= v <= 70 {
        v - 55
    } else {
        99
    };
    if d < radix {
        Some(d as nat)
    } else {
        None
    }
}

/// Value of a sequence of digits; `None` if some character is not a digit.
pub open spec fn digits_value(s: Seq<char>, radix: nat) -> Option<nat>
    decreases s.len(),
{
    if s.len() == 0 {
        Some(0)
    } else {
        match (digits_value(s.drop_last(), radix), digit_value(s.last(), radix)) {
            (Some(v), Some(d)) => Some(v * radix + d),
            _ => None,
        }
    }
}

/// `u64::from_str_radix(s, radix)`: an optional `+`, at least one digit,
/// and a value that fits in 64 bits.
pub open spec fn parse_u64(s: Seq<char>, radix: nat) -> Option<u64> {
    let digits = if s.len() > 0 && s[0] == '+' {
        s.drop_first()
    } else {
        s
    };
    if digits.len() == 0 {
        None
    } else {
        match digits_value(digits, radix) {
            Some(v) => if v <= u64::MAX {
                Some(v as u64)
            } else {
                None
            },
            None => None,
        }
    }
}

fn digit_exec(c: char, radix: u32) -> (r: Option<u32>)
    requires
        radix <= 16,
    ensures
        r matches Some(d) ==> digit_value(c, radix as nat) == Some(d as nat) && d < radix,
        r is None ==> digit_value(c, radix as nat) is None,
{
    let v = c as u32;
    let d: u32 = if 48 <= v && v <= 57 {
        v - 48
    } else if 97 <= v && v <= 102 {
        v - 87
    } else if 65 <= v && v <= 70 {
        v - 55
    } else {
        99
    };
    if d < radix {
        Some(d)
    } else {
        None
    }
}

proof fn lemma_digits_monotone(s: Seq<char>, radix: nat, k: int)
    requires
        0 <= k <= s.len(),
        radix >= 1,
        digits_value(s, radix) is Some,
    ensures
        digits_value(s.take(k), radix) is Some,
        digits_value(s.take(k), radix)->0 <= digits_value(s, radix)->0,
    decreases s.len(),
{
    if k < s.len() {
        assert(s.take(s.len() as int) =~= s);
        lemma_digits_monotone(s.drop_last(), radix, k);
        assert(s.drop_last().take(k) =~= s.take(k));
        let v = digits_value(s.drop_last(), radix)->0;
        assert(v * radix + digit_value(s.last(), radix)->0 >= v) by (nonlinear_arith)
            requires radix >= 1;
    } else {
        assert(s.take(k) =~= s);
    }
}

/// Parses an unsigned 64-bit number in the given radix (2 to 16) as
/// `u64::from_str_radix` does.
pub fn parse_u64_radix(s: &[char], radix: u32) -> (r: Option<u64>)
    requires
        2 <= radix <= 16,
    ensures
        r == parse_u64(s@, radix as nat),
{
    let start: usize = if s.len() > 0 && s[0] == '+' { 1 } else { 0 };
    let ghost digits = if s@.len() > 0 && s@[0] == '+' { s@.drop_first() } else { s@ };
    assert(digits =~= s@.skip(start as int));
    if start == s.len() {
        return None;
    }
    let mut value: u64 = 0;
    let mut i = start;
    assert(digits.take(0) =~= Seq::<char>::empty());
    while i < s.len()
        invariant
            start <= i <= s@.len(),
            2 <= radix <= 16,
            digits == s@.skip(start as int),
            digits == (if s@.len() > 0 && s@[0] == '+' { s@.drop_first() } else { s@ }),
            digits_value(digits.take(i - start), radix as nat) == Some(value as nat),
        decreases s.len() - i,
    {
        let ghost pre = digits.take(i - start);
        proof {
            assert(digits.take(i - start + 1).drop_last() =~= pre);
            assert(digits.take(i - start + 1).last() == s@[i as int]);
        }
        match digit_exec(s[i], radix) {
            None => {
                proof {
                    assert(digits_value(digits.take(i - start + 1), radix as nat) is None);
                    if digits_value(digits, radix as nat) is Some {
                        lemma_digits_monotone(digits, radix as nat, i - start + 1);
                    }
                    assert(digits_value(digits, radix as nat) is None);
                    assert(digits.len() > 0);
                    assert(parse_u64(s@, radix as nat) is None);
                }
                return None;
            },
            Some(d) => {
                let limit: u64 = (u64::MAX - d as u64) / radix as u64;
                if value > limit {
                    proof {
                        let nv = value as nat * radix as nat + d as nat;
                        assert(nv > u64::MAX) by (nonlinear_arith)
                            requires
                                value > limit,
                                limit == (0xffff_ffff_ffff_ffffu64 - d) / (radix as int),
                                radix >= 2,
                                d < radix,
                                nv == value as nat * radix as nat + d as nat;
                        assert(digits_value(digits.take(i - start + 1), radix as nat) == Some(nv));
                        if digits_value(digits, radix as nat) is Some {
                            lemma_digits_monotone(digits, radix as nat, i - start + 1);
                        }
                        assert(digits.len() > 0);
                        assert(parse_u64(s@, radix as nat) is None);
                    }
                    return None;
                }
                proof {
                    assert(value * radix + d <= u64::MAX) by (nonlinear_arith)
                        requires
                            value <= limit,
                            limit == (0xffff_ffff_ffff_ffffu64 - d) / (radix as int),
                            radix >= 2;
                }
                value = value * radix as u64 + d as u64;
                i = i + 1;
            },
        }
    }
    assert(digits.take(i - start) =~= digits);
    Some(value)
}



// ------------------------------------------------------------ /proc parsing

/// What `/proc/self/stat` gives as the parent PID: the fourth word, in
/// decimal.
pub open spec fn ppid_of(stat: Seq<char>) -> Result<u64, Seq<char>> {
    let parts = split_ws(stat);
    if parts.len() < 4 {
        Err("Invalid format in /proc/self/stat"@)
    } else {
        match parse_u64(parts[3], 10) {
            Some(v) => Ok(v),
            None => Err("Invalid PPID in /proc/self/stat"@),
        }
    }
}

/// Reads the parent PID out of the contents of `/proc/self/stat`
/// ("pid (comm) state ppid ...").
pub fn parse_ppid(stat_content: &str) -> (r: Result<u64, String>)
    ensures
        r is Ok ==> ppid_of(stat_content@) == Ok::<u64, Seq<char>>(r.unwrap()),
        r is Err ==> ppid_of(stat_content@) == Err::<u64, Seq<char>>(r.unwrap_err()@),
{
    let c = chars_of(stat_content);
    let parts = split_whitespace_of(c.as_slice());
    if parts.len() < 4 {
        return Err(owned("Invalid format in /proc/self/stat"));
    }
    assert(views(parts@)[3] == parts@[3]@);
    match parse_u64_radix(parts[3].as_slice(), 10) {
        Some(v) => Ok(v),
        None => Err(owned("Invalid PPID in /proc/self/stat")),
    }
}

/// How one line of `/proc/<pid>/maps` is read.
pub enum MapsLine {
    /// Not a mapping line, or one that is not writable.
    Skip,
    /// A malformed address: the error message.
    Fail(Seq<char>),
    /// A writable mapping from `start` to `end`.
    Writable(u64, u64),
}

/// Reads one line of `/proc/<pid>/maps` ("start-end perms offset dev inode
/// path"): lines of fewer than six words or whose first word is not two
/// pieces around `-` are skipped; the two pieces must be hexadecimal.
pub open spec fn maps_line(line: Seq<char>) -> MapsLine {
    let parts = split_ws(line);
    if parts.len() < 6 {
        MapsLine::Skip
    } else {
        let ap = split_char(parts[0], '-');
        if ap.len() != 2 {
            MapsLine::Skip
        } else {
            match parse_u64(ap[0], 16) {
                None => MapsLine::Fail("Invalid start address in "@ + parts[0]),
                Some(start) => match parse_u64(ap[1], 16) {
                    None => MapsLine::Fail("Invalid end address in "@ + parts[0]),
                    Some(end) => if contains(parts[1], seq!['w']) {
                        MapsLine::Writable(start, end)
                    } else {
                        MapsLine::Skip
                    },
                },
            }
        }
    }
}

/// The writable mappings of a maps listing, in order, or the error of its
/// first malformed line.
pub open spec fn writable_mappings(ls: Seq<Seq<char>>) -> Result<Seq<(u64, u64)>, Seq<char>>
    decreases ls.len(),
{
    if ls.len() == 0 {
        Ok(seq![])
    } else {
        match maps_line(ls[0]) {
            MapsLine::Skip => writable_mappings(ls.drop_first()),
            MapsLine::Fail(m) => Err(m),
            MapsLine::Writable(a, b) => match writable_mappings(ls.drop_first()) {
                Ok(rs) => Ok(seq![(a, b)] + rs),
                Err(m) => Err(m),
            },
        }
    }
}

/// Some writable mapping before the first malformed line ends before it
/// starts, which the size computation does not allow.
pub open spec fn maps_underflow(ls: Seq<Seq<char>>) -> bool
    decreases ls.len(),
{
    if ls.len() == 0 {
        false
    } else {
        match maps_line(ls[0]) {
            MapsLine::Skip => maps_underflow(ls.drop_first()),
            MapsLine::Fail(_) => false,
            MapsLine::Writable(a, b) => b < a || maps_underflow(ls.drop_first()),
        }
    }
}

/// Bytes captured per heap region at most.
pub const HEAP_CAPTURE_BYTES: usize = 4096;

/// The heap region of a writable mapping: its start, its size, and as many
/// zero bytes as its size up to 4096 (the memory itself is not read).
pub open spec fn region_of(r: HeapRegion, start: u64, end: u64) -> bool {
    &&& r.start_addr == start
    &&& r.size == (end - start) as usize
    &&& r.data@.len() == (if r.size < HEAP_CAPTURE_BYTES { r.size } else { HEAP_CAPTURE_BYTES })
    &&& forall|i: int| 0 <= i < r.data@.len() ==> r.data@[i] == 0u8
}

fn zeros(n: usize) -> (v: Vec<u8>)
    ensures
        v@.len() == n,
        forall|i: int| 0 <= i < n ==> v@[i] == 0u8,
{
    let mut v: Vec<u8> = Vec::new();
    let mut i: usize = 0;
    while i < n
        invariant
            i <= n,
            v@.len() == i,
            forall|j: int| 0 <= j < i ==> v@[j] == 0u8,
        decreases n - i,
    {
        v.push(0u8);
        i = i + 1;
    }
    v
}

fn maps_line_exec(line: &[char]) -> (r: (u8, u64, u64, Vec<char>))
    ensures
        r.0 == 0 ==> maps_line(line@) is Skip,
        r.0 == 1 ==> maps_line(line@) == MapsLine::Fail(r.3@),
        r.0 == 2 ==> maps_line(line@) == MapsLine::Writable(r.1, r.2),
        r.0 <= 2,
{
    let parts = split_whitespace_of(line);
    if parts.len() < 6 {
        return (0, 0, 0, Vec::new());
    }
    let ghost pv = views(parts@);
    assert(pv[0] == parts@[0]@ && pv[1] == parts@[1]@);
    let ap = split_char_of(parts[0].as_slice(), '-');
    if ap.len() != 2 {
        return (0, 0, 0, Vec::new());
    }
    assert(views(ap@)[0] == ap@[0]@ && views(ap@)[1] == ap@[1]@);
    match parse_u64_radix(ap[0].as_slice(), 16) {
        None => {
            let mut m: Vec<char> = Vec::new();
            extend_str(&mut m, "Invalid start address in ");
            extend_chars(&mut m, parts[0].as_slice());
            (1, 0, 0, m)
        },
        Some(start) => match parse_u64_radix(ap[1].as_slice(), 16) {
            None => {
                let mut m: Vec<char> = Vec::new();
                extend_str(&mut m, "Invalid end address in ");
                extend_chars(&mut m, parts[0].as_slice());
                (1, 0, 0, m)
            },
            Some(end) => {
                let w: [char; 1] = ['w'];
                assert(w@ =~= seq!['w']);
                if contains_chars(parts[1].as_slice(), w.as_slice()) {
                    (2, start, end, Vec::new())
                } else {
                    (0, 0, 0, Vec::new())
                }
            },
        },
    }
}

/// Whether some writable mapping of a maps listing, before its first
/// malformed line, ends before it starts.
pub fn heap_regions_underflow(maps_content: &str) -> (b: bool)
    ensures
        b == maps_underflow(lines(maps_content@)),
{
    let c = chars_of(maps_content);
    let ls = lines_of(c.as_slice());
    let ghost lv = views(ls@);
    let mut i: usize = 0;
    assert(lv.skip(0) =~= lv);
    while i < ls.len()
        invariant
            i <= ls@.len(),
            lv == views(ls@),
            lv == lines(maps_content@),
            maps_underflow(lv) == maps_underflow(lv.skip(i as int)),
        decreases ls.len() - i,
    {
        let ghost rest = lv.skip(i as int);
        assert(rest[0] == ls@[i as int]@);
        assert(rest.drop_first() =~= lv.skip(i + 1));
        let (kind, start, end, _msg) = maps_line_exec(ls[i].as_slice());
        if kind == 1 {
            return false;
        }
        if kind == 2 && end < start {
            return true;
        }
        i = i + 1;
    }
    assert(lv.skip(i as int) =~= Seq::<Seq<char>>::empty());
    false
}

/// Reads the writable regions out of the contents of `/proc/<pid>/maps`:
/// one region per writable mapping, in order, or the error of the first
/// malformed address.
pub fn parse_heap_regions(maps_content: &str) -> (r: Result<Vec<HeapRegion>, String>)
    requires
        !maps_underflow(lines(maps_content@)),
    ensures
        r is Err ==> writable_mappings(lines(maps_content@)) == Err::<Seq<(u64, u64)>, Seq<char>>(
            r.unwrap_err()@,
        ),
        r is Ok ==> writable_mappings(lines(maps_content@)) is Ok && {
            let rs = writable_mappings(lines(maps_content@))->Ok_0;
            let out = r.unwrap()@;
            &&& out.len() == rs.len()
            &&& forall|k: int| 0 <= k < rs.len() ==> region_of(#[trigger] out[k], rs[k].0, rs[k].1)
        },
{
    let c = chars_of(maps_content);
    let ls = lines_of(c.as_slice());
    let ghost lv = views(ls@);
    let mut out: Vec<HeapRegion> = Vec::new();
    let ghost mut acc: Seq<(u64, u64)> = seq![];
    let mut i: usize = 0;
    assert(lv.skip(0) =~= lv);
    while i < ls.len()
        invariant
            i <= ls@.len(),
            lv == views(ls@),
            lv == lines(maps_content@),
            !maps_underflow(lv.skip(i as int)),
            writable_mappings(lv) == (match writable_mappings(lv.skip(i as int)) {
                Ok(rs) => Ok(acc + rs),
                Err(m) => Err(m),
            }),
            out@.len() == acc.len(),
            forall|k: int| 0 <= k < acc.len() ==> region_of(#[trigger] out@[k], acc[k].0, acc[k].1),
        decreases ls.len() - i,
    {
        let ghost rest = lv.skip(i as int);
        assert(rest[0] == ls@[i as int]@);
        assert(rest.drop_first() =~= lv.skip(i + 1));
        let (kind, start, end, msg) = maps_line_exec(ls[i].as_slice());
        if kind == 1 {
            return Err(string_of(msg.as_slice()));
        }
        if kind == 2 {
            let size = (end - start) as usize;
            let data_size = if size < HEAP_CAPTURE_BYTES { size } else { HEAP_CAPTURE_BYTES };
            let region = HeapRegion { start_addr: start, size, data: zeros(data_size) };
            let ghost old_out = out@;
            out.push(region);
            proof {
                assert(out@[old_out.len() as int] == region);
                assert forall|k: int| 0 <= k < acc.len() + 1 implies region_of(
                    #[trigger] out@[k],
                    acc.push((start, end))[k].0,
                    acc.push((start, end))[k].1,
                ) by {
                    if k < acc.len() {
                        assert(out@[k] == old_out[k]);
                    }
                }
                assert(forall|rs: Seq<(u64, u64)>| acc + (seq![(start, end)] + rs) =~= acc.push((start, end)) + rs);
                acc = acc.push((start, end));
            }
        }
        i = i + 1;
    }
    proof {
        assert(lv.skip(i as int) =~= Seq::<Seq<char>>::empty());
        assert(acc + Seq::<(u64, u64)>::empty() =~= acc);
    }
    Ok(out)
}

// ------------------------------------------------------------ environment

/// The environment variables a snapshot may show.
pub open spec fn env_allowed(upper: Seq<char>) -> bool {
    ||| upper == "RUST_LOG"@
    ||| upper == "RUST_BACKTRACE"@
    ||| upper == "APP_ENV"@
    ||| upper == "FEATURE_FLAGS"@
    ||| upper == "CARGO_PKG_NAME"@
    ||| upper == "CARGO_PKG_VERSION"@
    ||| upper == "PATH"@
    ||| upper == "LANG"@
}

/// An uppercased variable name that marks a secret in a snapshot.
pub open spec fn snapshot_secret(upper: Seq<char>) -> bool {
    ||| contains(upper, "_TOKEN"@)
    ||| contains(upper, "_SECRET"@)
    ||| contains(upper, "_PASSWORD"@)
    ||| contains(upper, "_KEY"@)
    ||| contains(upper, "DATABASE_URL"@)
    ||| contains(upper, "CREDENTIAL"@)
    ||| contains(upper, "AUTH"@)
}

/// The variables of an environment a snapshot keeps, in order: those whose
/// uppercased name is allowed, with the value redacted when the name marks
/// a secret.
pub open spec fn safe_env(vars: Seq<(Seq<char>, Seq<char>)>) -> Seq<(Seq<char>, Seq<char>)>
    decreases vars.len(),
{
    if vars.len() == 0 {
        seq![]
    } else {
        let (k, v) = vars.last();
        let u = uppercase(k);
        let prev = safe_env(vars.drop_last());
        if env_allowed(u) {
            prev.push((k, if snapshot_secret(u) { "[REDACTED]"@ } else { v }))
        } else {
            prev
        }
    }
}

/// Name and value of each pair of strings.
pub open spec fn pairs(v: Seq<(String, String)>) -> Seq<(Seq<char>, Seq<char>)> {
    v.map_values(|p: (String, String)| (p.0@, p.1@))
}

fn is_str(v: &[char], s: &str) -> (b: bool)
    ensures
        b == (v@ == s@),
{
    let w = chars_of(s);
    crate::text::chars_eq(v, w.as_slice())
}

impl TimeTravelTelemetry {
    /// The environment variables a snapshot keeps (see `safe_env`).
    pub fn safe_env_vars(vars: Vec<(String, String)>) -> (r: Vec<(String, String)>)
        ensures
            pairs(r@) == safe_env(pairs(vars@)),
    {
        let mut out: Vec<(String, String)> = Vec::new();
        let mut rest = vars;
        let ghost all = pairs(rest@);
        let ghost mut taken: int = 0;
        assert(pairs(rest@) =~= all.skip(0));
        while rest.len() > 0
            invariant
                0 <= taken <= all.len(),
                pairs(rest@) == all.skip(taken),
                pairs(out@) == safe_env(all.take(taken)),
            decreases rest.len(),
        {
            let ghost before = rest@;
            proof {
                assert(pairs(before).len() == before.len());
                assert(taken < all.len());
                assert(all.skip(taken)[0] == all[taken]);
                assert(pairs(before)[0] == all[taken]);
            }
            let (key, val) = rest.remove(0);
            proof {
                assert(all[taken] == (key@, val@));
                assert(all.take(taken + 1).drop_last() =~= all.take(taken));
                assert(all.take(taken + 1).last() == (key@, val@));
            }
            let upper = to_uppercase(key.as_str());
            let u = chars_of(upper.as_str());
            let us = u.as_slice();
            let allowed = is_str(us, "RUST_LOG") || is_str(us, "RUST_BACKTRACE") || is_str(
                us,
                "APP_ENV",
            ) || is_str(us, "FEATURE_FLAGS") || is_str(us, "CARGO_PKG_NAME") || is_str(
                us,
                "CARGO_PKG_VERSION",
            ) || is_str(us, "PATH") || is_str(us, "LANG");
            let ghost old_out = out@;
            if allowed {
                let secret = contains_str(us, "_TOKEN") || contains_str(us, "_SECRET")
                    || contains_str(us, "_PASSWORD") || contains_str(us, "_KEY") || contains_str(
                    us,
                    "DATABASE_URL",
                ) || contains_str(us, "CREDENTIAL") || contains_str(us, "AUTH");
                if secret {
                    out.push((key, owned("[REDACTED]")));
                } else {
                    out.push((key, val));
                }
                assert(pairs(out@) =~= pairs(old_out).push(pairs(out@).last()));
            }
            proof {
                assert forall|i: int| 0 <= i < rest@.len() implies pairs(rest@)[i] == all.skip(
                    taken + 1,
                )[i] by {
                    assert(rest@[i] == before[i + 1]);
                    assert(pairs(before)[i + 1] == all.skip(taken)[i + 1]);
                }
                assert(pairs(rest@) =~= all.skip(taken + 1));
                taken = taken + 1;
            }
        }
        assert(all.take(taken) =~= all);
        out
    }

    /// The register snapshot: all zeros, registers are not captured.
    pub fn capture_registers() -> (r: RegisterSnapshot)
        ensures
            r.rax == 0 && r.rbx == 0 && r.rcx == 0 && r.rdx == 0 && r.rsi == 0 && r.rdi == 0
                && r.rbp == 0 && r.rsp == 0 && r.r8 == 0 && r.r9 == 0 && r.r10 == 0 && r.r11 == 0
                && r.r12 == 0 && r.r13 == 0 && r.r14 == 0 && r.r15 == 0,
    {
        RegisterSnapshot {
            rax: 0,
            rbx: 0,
            rcx: 0,
            rdx: 0,
            rsi: 0,
            rdi: 0,
            rbp: 0,
            rsp: 0,
            r8: 0,
            r9: 0,
            r10: 0,
            r11: 0,
            r12: 0,
            r13: 0,
            r14: 0,
            r15: 0,
        }
    }
}

/// A snapshot of the environment keeps only variables of the environment
/// whose uppercased name is allowed, and never the value of one whose name
/// marks a secret.
pub proof fn lemma_snapshot_redacts_secrets(vars: Seq<(Seq<char>, Seq<char>)>)
    ensures
        forall|i: int|
            0 <= i < safe_env(vars).len() ==> {
                let (k, v) = #[trigger] safe_env(vars)[i];
                &&& env_allowed(uppercase(k))
                &&& (snapshot_secret(uppercase(k)) ==> v == "[REDACTED]"@)
                &&& (!snapshot_secret(uppercase(k)) ==> exists|j: int|
                    0 <= j < vars.len() && vars[j] == (k, v))
                &&& exists|j: int| 0 <= j < vars.len() && vars[j].0 == k
            },
    decreases vars.len(),
{
    if vars.len() > 0 {
        let prev = vars.drop_last();
        lemma_snapshot_redacts_secrets(prev);
        let out = safe_env(vars);
        assert forall|i: int| 0 <= i < out.len() implies {
            let (k, v) = #[trigger] out[i];
            &&& env_allowed(uppercase(k))
            &&& (snapshot_secret(uppercase(k)) ==> v == "[REDACTED]"@)
            &&& (!snapshot_secret(uppercase(k)) ==> exists|j: int|
                0 <= j < vars.len() && vars[j] == (k, v))
            &&& exists|j: int| 0 <= j < vars.len() && vars[j].0 == k
        } by {
            let last = vars.len() - 1;
            assert(vars[last] == vars.last());
            if i < safe_env(prev).len() {
                assert(out[i] == safe_env(prev)[i]);
                let (k, v) = out[i];
                if !snapshot_secret(uppercase(k)) {
                    let j = choose|j: int| 0 <= j < prev.len() && prev[j] == (k, v);
                    assert(vars[j] == prev[j]);
                }
                let j = choose|j: int| 0 <= j < prev.len() && prev[j].0 == k;
                assert(vars[j] == prev[j]);
            }
        }
    }
}

/// The allowed variables are kept: every variable whose uppercased name is
/// RUST_LOG, RUST_BACKTRACE, APP_ENV, FEATURE_FLAGS, CARGO_PKG_NAME,
/// CARGO_PKG_VERSION, PATH or LANG has an entry of its name in the snapshot.
pub proof fn lemma_allowed_vars_kept(vars: Seq<(Seq<char>, Seq<char>)>, i: int)
    requires
        0 <= i < vars.len(),
        ({
            let u = uppercase(vars[i].0);
            ||| u == "RUST_LOG"@
            ||| u == "RUST_BACKTRACE"@
            ||| u == "APP_ENV"@
            ||| u == "FEATURE_FLAGS"@
            ||| u == "CARGO_PKG_NAME"@
            ||| u == "CARGO_PKG_VERSION"@
            ||| u == "PATH"@
            ||| u == "LANG"@
        }),
    ensures
        exists|j: int| 0 <= j < safe_env(vars).len() && (#[trigger] safe_env(vars)[j]).0 == vars[i].0,
    decreases vars.len(),
{
    let prev = vars.drop_last();
    let last = vars.len() - 1;
    if i == last {
        let (k, v) = vars.last();
        assert(env_allowed(uppercase(k)));
        let out = safe_env(vars);
        assert(out[safe_env(prev).len() as int].0 == k);
    } else {
        assert(prev[i] == vars[i]);
        lemma_allowed_vars_kept(prev, i);
        let j = choose|j: int| 0 <= j < safe_env(prev).len() && (#[trigger] safe_env(prev)[j]).0 == vars[i].0;
        let out = safe_env(vars);
        assert(out[j] == safe_env(prev)[j]);
    }
}

} // verus!
