//! Line-oriented operations: tab expansion and splitting into lines.

use crate::bytes::PyBytes;
use crate::object::{copy_bytes, BytesError};
use crate::split::views;
use vstd::prelude::*;

verus! {

/// `n` spaces.
pub open spec fn spaces(n: int) -> Seq<u8> {
    Seq::new(n as nat, |_i: int| 0x20u8)
}

/// The first `k` bytes of `s` with each tab replaced by spaces up to the
/// next multiple of `tab` columns (removed where `tab` is not positive),
/// paired with the column reached; a newline or carriage return starts
/// column zero again.
pub open spec fn expanded(s: Seq<u8>, tab: int, k: int) -> (Seq<u8>, int)
    decreases k,
{
    if k <= 0 {
        (Seq::empty(), 0)
    } else {
        let (o, col) = expanded(s, tab, k - 1);
        let c = s[k - 1];
        if c == 0x09 {
            if tab > 0 {
                let n = tab - col % tab;
                (o + spaces(n), col + n)
            } else {
                (o, col)
            }
        } else if c == 0x0a || c == 0x0d {
            (o.push(c), 0)
        } else {
            (o.push(c), col + 1)
        }
    }
}

proof fn lemma_expanded_grows(s: Seq<u8>, tab: int, k: int, m: int)
    requires
        0 <= k <= m,
    ensures
        expanded(s, tab, k).0.len() <= expanded(s, tab, m).0.len(),
        0 <= expanded(s, tab, m).1 <= expanded(s, tab, m).0.len(),
    decreases m,
{
    if m > 0 {
        if k < m {
            lemma_expanded_grows(s, tab, k, m - 1);
        } else {
            lemma_expanded_grows(s, tab, 0, m - 1);
        }
        if tab > 0 {
            let col = expanded(s, tab, m - 1).1;
            assert(0 <= col % tab < tab) by (nonlinear_arith)
                requires tab > 0, col >= 0;
        }
    }
}

/// Whether `c` ends a line.
pub open spec fn is_line_break(c: u8) -> bool {
    c == 0x0a || c == 0x0d
}

/// The index of the first line break at or after `i`, or the length.
pub open spec fn next_break(s: Seq<u8>, i: int) -> int
    decreases s.len() - i,
{
    if i < 0 || i >= s.len() {
        s.len() as int
    } else if is_line_break(s[i]) {
        i
    } else {
        next_break(s, i + 1)
    }
}

/// How many bytes the break at `b` takes: two for a carriage return with
/// a newline after it, else one.
pub open spec fn break_width(s: Seq<u8>, b: int) -> int {
    if s[b] == 0x0d && b + 1 < s.len() && s[b + 1] == 0x0a { 2 } else { 1 }
}

/// The lines of `s` from index `i` on, each with its break when `keep`.
pub open spec fn lines_from(s: Seq<u8>, i: int, keep: bool) -> Seq<Seq<u8>>
    decreases s.len() - i,
{
    if i < 0 || i >= s.len() {
        Seq::empty()
    } else {
        let b = next_break(s, i);
        if b < i || b >= s.len() {
            seq![s.subrange(i, s.len() as int)]
        } else {
            let w = break_width(s, b);
            seq![s.subrange(i, if keep { b + w } else { b })] + lines_from(s, b + w, keep)
        }
    }
}

proof fn lemma_next_break_skip(s: Seq<u8>, i: int, j: int)
    requires
        0 <= i <= j <= s.len(),
        forall|t: int| i <= t < j ==> !is_line_break(#[trigger] s[t]),
    ensures
        next_break(s, i) == next_break(s, j),
    decreases j - i,
{
    if i < j {
        lemma_next_break_skip(s, i + 1, j);
    }
}

impl PyBytes {
    /// Tabs replaced by spaces up to the next multiple of `tabsize`
    /// columns (removed where it is not positive); a newline or carriage
    /// return starts a new line. A result longer than `isize::MAX` bytes is
    /// an overflow error.
    pub fn expandtabs(&self, tabsize: isize) -> (r: Result<PyBytes, BytesError>)
        ensures
            ({
                let e = expanded(self@, tabsize as int, self@.len() as int).0;
                &&& e.len() > isize::MAX ==> r == Err::<PyBytes, BytesError>(BytesError::Overflow)
                &&& e.len() <= isize::MAX ==> (r matches Ok(b) && b@ == e)
            }),
    {
        let s = self.as_bytes();
        let len = s.len();
        let ghost whole = expanded(s@, tabsize as int, len as int).0;
        let mut out: Vec<u8> = Vec::new();
        let mut col: usize = 0;
        let mut i: usize = 0;
        while i < len
            invariant
                len == s@.len(),
                s@ == self@,
                i <= len,
                whole == expanded(s@, tabsize as int, len as int).0,
                out@ == expanded(s@, tabsize as int, i as int).0,
                col as int == expanded(s@, tabsize as int, i as int).1,
                out@.len() <= isize::MAX,
            decreases len - i,
        {
            proof {
                lemma_expanded_grows(s@, tabsize as int, i as int, i as int);
                lemma_expanded_grows(s@, tabsize as int, i + 1, len as int);
            }
            let c = s[i];
            if c == 0x09 {
                if tabsize > 0 {
                    let t = tabsize as usize;
                    let n = t - col % t;
                    if n > (isize::MAX as usize) - out.len() {
                        return Err(BytesError::Overflow);
                    }
                    let ghost before = out@;
                    let mut j: usize = 0;
                    while j < n
                        invariant
                            j <= n,
                            out@ == before + spaces(j as int),
                            before.len() + n <= isize::MAX,
                        decreases n - j,
                    {
                        out.push(0x20);
                        j += 1;
                        assert(out@ =~= before + spaces(j as int));
                    }
                    col = col + n;
                }
            } else {
                if out.len() >= isize::MAX as usize {
                    return Err(BytesError::Overflow);
                }
                out.push(c);
                if c == 0x0a || c == 0x0d {
                    col = 0;
                } else {
                    col = col + 1;
                }
            }
            i += 1;
        }
        Ok(PyBytes::from(out))
    }

    /// The lines of the value, split after `\n`, `\r` or `\r\n`, each with
    /// its break when `keepends`; a last line without a break counts, an
    /// empty value has no lines.
    pub fn splitlines(&self, keepends: bool) -> (r: Vec<PyBytes>)
        ensures
            views(r@) == lines_from(self@, 0, keepends),
    {
        let s = self.as_bytes();
        let len = s.len();
        let mut out: Vec<PyBytes> = Vec::new();
        let mut i: usize = 0;
        while i < len
            invariant
                len == s@.len(),
                s@ == self@,
                i <= len,
                views(out@) + lines_from(s@, i as int, keepends) == lines_from(s@, 0, keepends),
            decreases len - i,
        {
            let mut b: usize = i;
            while b < len && s[b] != 0x0a && s[b] != 0x0d
                invariant
                    i <= b <= len,
                    len == s@.len(),
                    forall|t: int| i <= t < b ==> !is_line_break(#[trigger] s@[t]),
                decreases len - b,
            {
                b += 1;
            }
            proof {
                lemma_next_break_skip(s@, i as int, b as int);
            }
            if b == len {
                let line = PyBytes::from(copy_bytes(&s[i..len]));
                proof {
                    assert(lines_from(s@, i as int, keepends) == seq![s@.subrange(i as int, len as int)]);
                    assert(lines_from(s@, len as int, keepends) =~= Seq::<Seq<u8>>::empty());
                    assert(views(out@.push(line)) =~= views(out@) + seq![line@]);
                }
                out.push(line);
                i = len;
            } else {
                let w: usize = if s[b] == 0x0d && b + 1 < len && s[b + 1] == 0x0a { 2 } else { 1 };
                let stop = if keepends { b + w } else { b };
                let line = PyBytes::from(copy_bytes(&s[i..stop]));
                proof {
                    assert(views(out@.push(line)) =~= views(out@) + seq![line@]);
                    let rest = lines_from(s@, (b + w) as int, keepends);
                    assert(lines_from(s@, i as int, keepends) == seq![line@] + rest);
                    assert(views(out@) + (seq![line@] + rest) =~= (views(out@) + seq![line@]) + rest);
                }
                out.push(line);
                i = b + w;
            }
        }
        proof {
            assert(lines_from(s@, i as int, keepends) =~= Seq::<Seq<u8>>::empty());
            assert(views(out@) + Seq::<Seq<u8>>::empty() =~= views(out@));
        }
        out
    }
}

} // verus!
