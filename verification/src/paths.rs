//! Successor paths for chained openings.
//!
//! A chained opening writes the successor function beside the one it
//! opened: the next path keeps the stem and carries a numeric extension
//! one higher than the current one — a non-numeric or missing extension
//! counts as zero.

use vstd::prelude::*;

verus! {

/// The index of the last `/` in the path, or -1.
pub open spec fn spec_last_slash(p: Seq<u8>) -> int
    decreases p.len(),
{
    if p.len() == 0 {
        -1
    } else if p[p.len() - 1] == 47u8 {
        p.len() - 1
    } else {
        spec_last_slash(p.drop_last())
    }
}

/// The index of the last `.` strictly after position `fs`, or -1.  A dot
/// at the very start of the file name does not begin an extension.
pub open spec fn spec_last_dot(p: Seq<u8>, fs: int) -> int
    decreases p.len(),
{
    if p.len() == 0 {
        -1
    } else if p[p.len() - 1] == 46u8 && p.len() - 1 > fs {
        p.len() - 1
    } else {
        spec_last_dot(p.drop_last(), fs)
    }
}

/// All bytes are decimal digits.
pub open spec fn spec_is_digits(s: Seq<u8>) -> bool {
    forall|i: int| 0 <= i < s.len() ==> 48 <= #[trigger] s[i] <= 57
}

/// The value of a digit string.
pub open spec fn spec_digits_value(s: Seq<u8>) -> int
    decreases s.len(),
{
    if s.len() == 0 {
        0
    } else {
        spec_digits_value(s.drop_last()) * 10 + (s[s.len() - 1] - 48)
    }
}

/// The numeric index an extension denotes: its value when it is a
/// non-empty digit string that fits the machine, and zero otherwise.
pub open spec fn spec_ext_index(ext: Seq<u8>) -> int {
    if spec_is_digits(ext) && ext.len() > 0 && 0 <= spec_digits_value(ext) <= usize::MAX as int {
        spec_digits_value(ext)
    } else {
        0
    }
}

/// The decimal rendering of a number.
pub open spec fn spec_render(n: nat) -> Seq<u8>
    decreases n,
{
    if n < 10 {
        seq![(48 + n) as u8]
    } else {
        spec_render(n / 10).push((48 + n % 10) as u8)
    }
}

/// The successor path: the stem with a numeric extension one higher than
/// the current extension's index.
pub open spec fn spec_path_successor(p: Seq<u8>) -> Seq<u8> {
    let fs = spec_last_slash(p) + 1;
    let d = spec_last_dot(p, fs);
    if d == -1 {
        p + seq![46u8] + spec_render(1)
    } else {
        p.subrange(0, d + 1) + spec_render(
            (spec_ext_index(p.subrange(d + 1, p.len() as int)) + 1) as nat,
        )
    }
}

/// Decimal digits of a number, most significant first.
fn render_digits(n: usize) -> (r: Vec<u8>)
    ensures
        r@ == spec_render(n as nat),
    decreases n,
{
    if n < 10 {
        let mut v: Vec<u8> = Vec::new();
        v.push(48 + (n as u8));
        proof {
            assert(v@ =~= spec_render(n as nat));
        }
        v
    } else {
        let mut v = render_digits(n / 10);
        v.push(48 + ((n % 10) as u8));
        v
    }
}

/// The path a chained opening writes its successor function to: the stem
/// with a numeric extension one higher than the current one.  Mirrors the
/// way the command surface names follow-up functions.
pub fn path_successor(path: &[u8]) -> (r: Vec<u8>)
    requires
        path@.len() > 0,
        path@[path@.len() - 1] != 47u8,
        ({
            let fs = spec_last_slash(path@) + 1;
            let d = spec_last_dot(path@, fs);
            d == -1 || spec_ext_index(path@.subrange(d + 1, path@.len() as int)) < usize::MAX
                as int
        }),
    ensures
        r@ == spec_path_successor(path@),
{
    let n = path.len();
    let mut fs0: usize = 0;
    let mut i: usize = 0;
    while i < n
        invariant
            n == path@.len(),
            i <= n,
            fs0 <= i,
            fs0 as int == spec_last_slash(path@.subrange(0, i as int)) + 1,
        decreases n - i,
    {
        proof {
            assert(path@.subrange(0, i + 1).drop_last() =~= path@.subrange(0, i as int));
        }
        if path[i] == 47 {
            fs0 = i + 1;
        }
        i += 1;
    }
    proof {
        assert(path@.subrange(0, n as int) =~= path@);
    }
    let ghost fs = spec_last_slash(path@) + 1;
    let mut dot: usize = 0;
    let mut has_dot = false;
    let mut j: usize = 0;
    while j < n
        invariant
            n == path@.len(),
            j <= n,
            fs0 as int == fs,
            has_dot ==> fs0 <= dot < j && dot as int == spec_last_dot(
                path@.subrange(0, j as int),
                fs,
            ),
            !has_dot ==> spec_last_dot(path@.subrange(0, j as int), fs) == -1,
        decreases n - j,
    {
        proof {
            assert(path@.subrange(0, j + 1).drop_last() =~= path@.subrange(0, j as int));
        }
        if path[j] == 46 && j > fs0 {
            dot = j;
            has_dot = true;
        }
        j += 1;
    }
    proof {
        assert(path@.subrange(0, n as int) =~= path@);
    }
    if !has_dot {
        let mut out: Vec<u8> = Vec::new();
        let mut k: usize = 0;
        while k < n
            invariant
                n == path@.len(),
                k <= n,
                out@ =~= path@.subrange(0, k as int),
            decreases n - k,
        {
            out.push(path[k]);
            k += 1;
        }
        out.push(46);
        let digits = render_digits(1);
        let mut t: usize = 0;
        while t < digits.len()
            invariant
                t <= digits@.len(),
                out@ =~= path@ + seq![46u8] + digits@.subrange(0, t as int),
            decreases digits.len() - t,
        {
            out.push(digits[t]);
            t += 1;
        }
        proof {
            assert(digits@.subrange(0, digits@.len() as int) =~= digits@);
            assert(out@ =~= spec_path_successor(path@));
        }
        out
    } else {
        let d = dot;
        // Parse the extension as a number; anything non-numeric or too
        // large counts as zero.
        let ghost ext = path@.subrange(d + 1, n as int);
        let mut val: u128 = 0;
        let mut over = false;
        let mut all_digits = true;
        let mut k: usize = d + 1;
        while k < n
            invariant
                n == path@.len(),
                d < k <= n,
                ext == path@.subrange(d + 1, n as int),
                all_digits == spec_is_digits(path@.subrange(d + 1, k as int)),
                val <= usize::MAX as u128,
                (all_digits && !over) ==> val as int == spec_digits_value(
                    path@.subrange(d + 1, k as int),
                ),
                over ==> spec_digits_value(path@.subrange(d + 1, k as int)) > usize::MAX as int,
            decreases n - k,
        {
            let b = path[k];
            proof {
                assert(path@.subrange(d + 1, k + 1).drop_last() =~= path@.subrange(
                    d + 1,
                    k as int,
                ));
                if spec_digits_value(path@.subrange(d + 1, k as int)) > usize::MAX as int {
                    assert(spec_digits_value(path@.subrange(d + 1, k + 1)) == spec_digits_value(
                        path@.subrange(d + 1, k as int),
                    ) * 10 + (path@[k as int] - 48));
                }
            }
            if b < 48 || b > 57 {
                all_digits = false;
            } else if all_digits && !over {
                let m: u128 = val * 10 + ((b - 48) as u128);
                if m > (usize::MAX as u128) {
                    over = true;
                } else {
                    val = m;
                }
            }
            k += 1;
        }
        proof {
            assert(path@.subrange(d + 1, n as int) =~= ext);
        }
        let index: usize = if all_digits && !over && n > d + 1 {
            val as usize
        } else {
            0
        };
        proof {
            if over {
                assert(spec_ext_index(ext) == 0);
            }
            assert(index as int == spec_ext_index(ext));
        }
        let mut out: Vec<u8> = Vec::new();
        let mut k2: usize = 0;
        while k2 < d + 1
            invariant
                n == path@.len(),
                d < n,
                k2 <= d + 1,
                out@ =~= path@.subrange(0, k2 as int),
            decreases d + 1 - k2,
        {
            out.push(path[k2]);
            k2 += 1;
        }
        let digits = render_digits(index + 1);
        let mut t: usize = 0;
        while t < digits.len()
            invariant
                n == path@.len(),
                d < n,
                t <= digits@.len(),
                out@ =~= path@.subrange(0, d + 1) + digits@.subrange(0, t as int),
            decreases digits.len() - t,
        {
            out.push(digits[t]);
            t += 1;
        }
        proof {
            assert(digits@.subrange(0, digits@.len() as int) =~= digits@);
            assert(out@ =~= spec_path_successor(path@));
        }
        out
    }
}

} // verus!
