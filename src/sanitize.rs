//! Turning arbitrary text into a single safe path segment.

use vstd::prelude::*;
use crate::text::{is_ws, is_whitespace, push_char, push_str};

verus! {

/// Characters that cannot stand in a path segment as they are.
pub open spec fn is_special(c: char) -> bool {
    c == '\\' || c == '/' || c == '<' || c == '>' || c == '?' || c == '*' || c == '|' || c == '"'
        || c == ':'
}

/// Whether `s` holds any special character.
pub open spec fn has_special(s: Seq<char>) -> bool {
    exists|i: int| 0 <= i < s.len() && is_special(#[trigger] s[i])
}

/// The characters `c` is replaced with when it is special and not a colon;
/// `None` for characters kept as they are.
pub open spec fn replacement(c: char) -> Option<Seq<char>> {
    if c == '\\' || c == '/' {
        Some(seq!['+'])
    } else if c == '*' {
        Some(seq!['-'])
    } else if c == '<' || c == '>' || c == '?' || c == '|' || c == '"' {
        Some(Seq::empty())
    } else {
        None
    }
}

/// Whether the last character of `out` is whitespace.
pub open spec fn ends_ws(out: Seq<char>) -> bool {
    out.len() > 0 && is_ws(out.last())
}

/// The transform phase: `rest` is rewritten after the output `out` produced
/// so far.
pub open spec fn transform(out: Seq<char>, rest: Seq<char>) -> Seq<char>
    decreases rest.len(),
{
    if rest.len() == 0 {
        out
    } else {
        let c = rest[0];
        if c == ':' {
            if rest.len() > 1 && is_ws(rest[1]) {
                transform(out + seq![' ', '-', ' '], rest.skip(2))
            } else {
                transform(out.push('-'), rest.drop_first())
            }
        } else if replacement(c) is Some {
            transform(out + replacement(c)->0, rest.drop_first())
        } else if is_ws(c) && ends_ws(out) {
            transform(out, rest.drop_first())
        } else {
            transform(out.push(c), rest.drop_first())
        }
    }
}

/// Scan from `i` for the first special character; the prefix before it is
/// kept verbatim and the rest transformed.
pub open spec fn scan(s: Seq<char>, i: nat) -> Seq<char>
    decreases s.len() - i,
{
    if i >= s.len() {
        s
    } else if is_special(s[i as int]) {
        transform(s.take(i as int), s.skip(i as int))
    } else {
        scan(s, i + 1)
    }
}

/// The sanitised form of `s`.
pub open spec fn sanitized(s: Seq<char>) -> Seq<char> {
    scan(s, 0)
}

proof fn lemma_scan_plain(s: Seq<char>, i: nat)
    requires
        i <= s.len(),
        forall|j: int| i <= j < s.len() ==> !is_special(#[trigger] s[j]),
    ensures
        scan(s, i) == s,
    decreases s.len() - i,
{
    if i < s.len() {
        lemma_scan_plain(s, i + 1);
    }
}

proof fn lemma_scan_from(s: Seq<char>, i: nat, k: nat)
    requires
        i <= k < s.len(),
        is_special(s[k as int]),
        forall|j: int| i <= j < k ==> !is_special(#[trigger] s[j]),
    ensures
        scan(s, i) == transform(s.take(k as int), s.skip(k as int)),
    decreases k - i,
{
    if i < k {
        lemma_scan_from(s, i + 1, k);
    }
}

fn replacement_of(c: char) -> (r: Option<&'static str>)
    ensures
        r.is_some() == replacement(c).is_some(),
        r.is_some() ==> r->0@ == replacement(c)->0,
{
    if c == '\\' || c == '/' {
        proof { reveal_strlit("+"); }
        Some("+")
    } else if c == '*' {
        proof { reveal_strlit("-"); }
        Some("-")
    } else if c == '<' || c == '>' || c == '?' || c == '|' || c == '"' {
        proof { reveal_strlit(""); }
        Some("")
    } else {
        None
    }
}

/// Returns `s` made safe for use as one path segment.
///
/// Text without special characters comes back unchanged. Otherwise the part
/// before the first special character is kept verbatim, and from there on `\`
/// and `/` become `+`, `*` becomes `-`, `<`, `>`, `?`, `|` and `"` are
/// deleted, a colon followed by whitespace becomes `" - "` (taking the
/// whitespace with it), any other colon becomes `-`, and whitespace that would
/// follow emitted whitespace is dropped.
pub fn sanitize(s: &str) -> (r: String)
    ensures
        r@ == sanitized(s@),
        !has_special(s@) ==> r@ == s@,
{
    let n = s.unicode_len();
    let mut i: usize = 0;
    while i < n && !is_special_char(s.get_char(i))
        invariant
            n == s@.len(),
            i <= n,
            forall|j: int| 0 <= j < i ==> !is_special(#[trigger] s@[j]),
        decreases n - i,
    {
        i = i + 1;
    }
    if i == n {
        proof {
            lemma_scan_plain(s@, 0);
        }
        return s.to_owned();
    }
    proof {
        lemma_scan_from(s@, 0, i as nat);
    }
    let mut out = String::new();
    push_str(&mut out, s.substring_char(0, i));
    assert(out@ =~= s@.take(i as int));
    let mut j: usize = i;
    while j < n
        invariant
            n == s@.len(),
            i <= j <= n,
            transform(out@, s@.skip(j as int)) == sanitized(s@),
        decreases n - j,
    {
        let ghost rest = s@.skip(j as int);
        let c = s.get_char(j);
        assert(rest[0] == c);
        assert(rest.drop_first() =~= s@.skip(j + 1));
        if c == ':' {
            if j + 1 < n && is_whitespace(s.get_char(j + 1)) {
                assert(rest[1] == s@[j + 1]);
                assert(rest.skip(2) =~= s@.skip(j + 2));
                let ghost before = out@;
                push_char(&mut out, ' ');
                push_char(&mut out, '-');
                push_char(&mut out, ' ');
                assert(out@ =~= before + seq![' ', '-', ' ']);
                j = j + 2;
            } else {
                push_char(&mut out, '-');
                j = j + 1;
            }
        } else {
            match replacement_of(c) {
                Some(t) => {
                    push_str(&mut out, t);
                },
                None => {
                    let ws = is_whitespace(c);
                    let n_out = out.as_str().unicode_len();
                    if !(ws && n_out > 0 && is_whitespace(out.as_str().get_char(n_out - 1))) {
                        push_char(&mut out, c);
                    }
                },
            }
            j = j + 1;
        }
    }
    out
}

fn is_special_char(c: char) -> (r: bool)
    ensures
        r == is_special(c),
{
    c == '\\' || c == '/' || c == '<' || c == '>' || c == '?' || c == '*' || c == '|' || c == '"'
        || c == ':'
}

} // verus!
