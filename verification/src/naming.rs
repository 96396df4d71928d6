//! Capture file naming and the path-safety gate. Filenames are built
//! deterministically as `capture_<token>_<unixtime>.npz`; any name holding a
//! path separator or a `..` sequence is rejected before the filesystem is
//! touched — this layer is the last line of defense against escaping the
//! storage root.

use vstd::prelude::*;
use vstd::string::*;

verus! {

/// The decimal digit character of `d` (for `0 <= d < 10`).
pub open spec fn digit_char(d: int) -> char {
    if d == 0 {
        '0'
    } else if d == 1 {
        '1'
    } else if d == 2 {
        '2'
    } else if d == 3 {
        '3'
    } else if d == 4 {
        '4'
    } else if d == 5 {
        '5'
    } else if d == 6 {
        '6'
    } else if d == 7 {
        '7'
    } else if d == 8 {
        '8'
    } else {
        '9'
    }
}

/// The usual decimal notation of `n >= 0`, most significant digit first, no
/// leading zeros (just "0" for zero).
pub open spec fn dec_chars(n: int) -> Seq<char>
    decreases n,
{
    if n < 10 {
        seq![digit_char(n)]
    } else {
        dec_chars(n / 10).push(digit_char(n % 10))
    }
}

fn digit_str(d: u64) -> (r: &'static str)
    requires
        d < 10,
    ensures
        r@ == seq![digit_char(d as int)],
{
    proof {
        reveal_strlit("0");
        reveal_strlit("1");
        reveal_strlit("2");
        reveal_strlit("3");
        reveal_strlit("4");
        reveal_strlit("5");
        reveal_strlit("6");
        reveal_strlit("7");
        reveal_strlit("8");
        reveal_strlit("9");
    }
    let r = if d == 0 {
        "0"
    } else if d == 1 {
        "1"
    } else if d == 2 {
        "2"
    } else if d == 3 {
        "3"
    } else if d == 4 {
        "4"
    } else if d == 5 {
        "5"
    } else if d == 6 {
        "6"
    } else if d == 7 {
        "7"
    } else if d == 8 {
        "8"
    } else {
        "9"
    };
    proof {
        assert(r@ =~= seq![digit_char(d as int)]);
    }
    r
}

/// Renders `n` in decimal.
pub fn decimal_string(n: u64) -> (s: String)
    ensures
        s@ == dec_chars(n as int),
    decreases n,
{
    if n < 10 {
        String::from_str(digit_str(n))
    } else {
        let mut s = decimal_string(n / 10);
        s.append(digit_str(n % 10));
        proof {
            assert(s@ =~= dec_chars(n as int));
        }
        s
    }
}

/// The deterministic capture filename `capture_<token>_<ts>.npz`. Collisions
/// are possible only for two captures of one token within the same second
/// (last write wins).
pub fn make_capture_filename(token: &str, ts: u64) -> (r: String)
    ensures
        r@ == "capture_"@ + token@ + "_"@ + dec_chars(ts as int) + ".npz"@,
{
    let mut s = String::from_str("capture_");
    s.append(token);
    s.append("_");
    let d = decimal_string(ts);
    s.append(d.as_str());
    s.append(".npz");
    proof {
        assert(s@ =~= "capture_"@ + token@ + "_"@ + dec_chars(ts as int) + ".npz"@);
    }
    s
}

/// A name is safe when its UTF-8 bytes hold no `/` (47), no `\` (92) and no
/// two adjacent `.` (46) — no path separators and no traversal sequence.
pub open spec fn safe_name(s: Seq<u8>) -> bool {
    &&& forall|i: int| 0 <= i < s.len() ==> s[i] != 47 && s[i] != 92
    &&& forall|i: int| 0 <= i && i + 1 < s.len() ==> !(#[trigger] s[i] == 46 && s[i + 1] == 46)
}

/// The path-safety gate: accepts exactly the safe names. Callers must not
/// touch the filesystem with a name this function refuses.
pub fn is_safe_filename(name: &str) -> (r: bool)
    ensures
        r == safe_name(name.spec_bytes()),
{
    let b = name.as_bytes();
    let n = b.len();
    let mut i: usize = 0;
    while i < n
        invariant
            n == b@.len(),
            i <= n,
            b@ == name.spec_bytes(),
            forall|j: int| 0 <= j < i ==> b@[j] != 47 && b@[j] != 92,
            forall|j: int| 0 <= j && j + 1 < i ==> !(#[trigger] b@[j] == 46 && b@[j + 1] == 46),
        decreases n - i,
    {
        if b[i] == 47 || b[i] == 92 {
            return false;
        }
        if i >= 1 && b[i - 1] == 46 && b[i] == 46 {
            return false;
        }
        i = i + 1;
    }
    true
}

/// UTF-8 bytes of the suffix `.npz`.
pub open spec fn npz_suffix() -> Seq<u8> {
    seq![46u8, 110u8, 112u8, 122u8]
}

/// UTF-8 bytes of the suffix `.txt`.
pub open spec fn txt_suffix() -> Seq<u8> {
    seq![46u8, 116u8, 120u8, 116u8]
}

pub open spec fn ends_with(s: Seq<u8>, t: Seq<u8>) -> bool {
    t.len() <= s.len() && s.subrange(s.len() - t.len(), s.len() as int) == t
}

/// The listing shows only recognized extensions: `.npz` or `.txt`.
pub open spec fn listed_name(s: Seq<u8>) -> bool {
    ends_with(s, npz_suffix()) || ends_with(s, txt_suffix())
}

/// `log` (108, 111, 103) occurs at byte offset `i` of `s`.
pub open spec fn log_at(s: Seq<u8>, i: int) -> bool {
    0 <= i && i + 3 <= s.len() && s[i] == 108 && s[i + 1] == 111 && s[i + 2] == 103
}

/// A name holding `log` anywhere is classified as a log file; everything
/// else listed is a capture.
pub open spec fn is_log_name(s: Seq<u8>) -> bool {
    exists|i: int| log_at(s, i)
}

fn name_has_log(name: &str) -> (r: bool)
    ensures
        r == is_log_name(name.spec_bytes()),
{
    let b = name.as_bytes();
    let n = b.len();
    if n < 3 {
        return false;
    }
    let mut i: usize = 0;
    while i <= n - 3
        invariant
            3 <= n,
            n == b@.len(),
            b@ == name.spec_bytes(),
            forall|j: int| 0 <= j < i ==> !log_at(b@, j),
        decreases n - i,
    {
        if b[i] == 108 && b[i + 1] == 111 && b[i + 2] == 103 {
            proof {
                assert(log_at(name.spec_bytes(), i as int));
            }
            return true;
        }
        i = i + 1;
    }
    proof {
        assert forall|j: int| !log_at(name.spec_bytes(), j) by {
            if 0 <= j && j + 3 <= n {
                assert(j < i);
            }
        }
    }
    false
}

fn name_is_listed(name: &str) -> (r: bool)
    ensures
        r == listed_name(name.spec_bytes()),
{
    let b = name.as_bytes();
    let n = b.len();
    if n < 4 {
        return false;
    }
    let r = b[n - 4] == 46 && ((b[n - 3] == 110 && b[n - 2] == 112 && b[n - 1] == 122) || (b[n - 3]
        == 116 && b[n - 2] == 120 && b[n - 1] == 116));
    proof {
        let s = name.spec_bytes();
        assert(s.subrange(n - 4, n as int) =~= seq![s[n - 4], s[n - 3], s[n - 2], s[n - 1]]);
        if s[n - 4] == 46 && s[n - 3] == 110 && s[n - 2] == 112 && s[n - 1] == 122 {
            assert(s.subrange(n - 4, n as int) =~= npz_suffix());
        }
        if s[n - 4] == 46 && s[n - 3] == 116 && s[n - 2] == 120 && s[n - 1] == 116 {
            assert(s.subrange(n - 4, n as int) =~= txt_suffix());
        }
    }
    r
}

/// One row of the capture-file listing, before date formatting: the name,
/// the size in whole kilobytes, and whether the name classifies as a log.
pub struct ListedFile {
    pub name: String,
    pub size_kb: u64,
    pub is_log: bool,
}

/// Filters and classifies one directory entry for the file listing: names
/// with a recognized extension are kept, with their size in kilobytes and
/// their kind; everything else is dropped.
pub fn classify_listing(name: &str, size_bytes: u64) -> (r: Option<ListedFile>)
    ensures
        r is Some <==> listed_name(name.spec_bytes()),
        r matches Some(f) ==> {
            &&& f.name@ == name@
            &&& f.size_kb == size_bytes / 1024
            &&& f.is_log == is_log_name(name.spec_bytes())
        },
{
    if name_is_listed(name) {
        Some(
            ListedFile {
                name: name.to_owned(),
                size_kb: size_bytes / 1024,
                is_log: name_has_log(name),
            },
        )
    } else {
        None
    }
}

} // verus!
