use vstd::prelude::*;

verus! {

use vstd::string::StrSliceExecFns;
use vstd::string::StringExecFns;

/// The whitespace characters recognized when trimming and when splitting a
/// `class` attribute into tokens (ASCII whitespace).
pub open spec fn is_space(c: char) -> bool {
    c == ' ' || c == '\t' || c == '\n' || c == '\r'
}

pub fn is_space_c(c: char) -> (r: bool)
    ensures
        r == is_space(c),
{
    c == ' ' || c == '\t' || c == '\n' || c == '\r'
}

pub open spec fn spec_trim_start(s: Seq<char>) -> Seq<char>
    decreases s.len(),
{
    if s.len() > 0 && is_space(s[0]) {
        spec_trim_start(s.drop_first())
    } else {
        s
    }
}

pub open spec fn spec_trim_end(s: Seq<char>) -> Seq<char>
    decreases s.len(),
{
    if s.len() > 0 && is_space(s[s.len() - 1]) {
        spec_trim_end(s.drop_last())
    } else {
        s
    }
}

/// The string with leading and trailing whitespace removed.
pub open spec fn spec_trim(s: Seq<char>) -> Seq<char> {
    spec_trim_end(spec_trim_start(s))
}

proof fn lemma_trim_start_step(s: Seq<char>, i: int)
    requires
        0 <= i < s.len(),
        is_space(s[i]),
    ensures
        spec_trim_start(s.subrange(i, s.len() as int)) == spec_trim_start(
            s.subrange(i + 1, s.len() as int),
        ),
{
    let sub = s.subrange(i, s.len() as int);
    assert(sub.drop_first() =~= s.subrange(i + 1, s.len() as int));
}

proof fn lemma_trim_end_step(s: Seq<char>, i: int, j: int)
    requires
        0 <= i < j <= s.len(),
        is_space(s[j - 1]),
    ensures
        spec_trim_end(s.subrange(i, j)) == spec_trim_end(s.subrange(i, j - 1)),
{
    let sub = s.subrange(i, j);
    assert(sub.drop_last() =~= s.subrange(i, j - 1));
}

/// Removes leading and trailing whitespace.
pub fn trim_str(s: &str) -> (r: String)
    ensures
        r@ == spec_trim(s@),
{
    let n: usize = s.unicode_len();
    let mut i: usize = 0;
    proof {
        assert(s@.subrange(0, n as int) =~= s@);
    }
    while i < n && is_space_c(s.get_char(i))
        invariant
            0 <= i <= n,
            n == s@.len(),
            spec_trim_start(s@.subrange(i as int, n as int)) == spec_trim_start(s@),
        decreases n - i,
    {
        proof {
            lemma_trim_start_step(s@, i as int);
        }
        i = i + 1;
    }
    proof {
        assert(spec_trim_start(s@) == s@.subrange(i as int, n as int));
    }
    let mut j: usize = n;
    while j > i && is_space_c(s.get_char(j - 1))
        invariant
            i <= j <= n,
            n == s@.len(),
            spec_trim_start(s@) == s@.subrange(i as int, n as int),
            spec_trim_end(s@.subrange(i as int, j as int)) == spec_trim_end(
                s@.subrange(i as int, n as int),
            ),
        decreases j,
    {
        proof {
            assert(s@.subrange(i as int, j as int)[j - i - 1] == s@[j - 1]);
            lemma_trim_end_step(s@, i as int, j as int);
        }
        j = j - 1;
    }
    proof {
        assert(spec_trim(s@) == s@.subrange(i as int, j as int));
    }
    s.substring_char(i, j).to_owned()
}

/// The tokens of `s` split on every single space character, empty tokens kept,
/// as `str::split(" ")` produces them.
pub open spec fn spec_split_sp(s: Seq<char>, cur: Seq<char>) -> Seq<Seq<char>>
    decreases s.len(),
{
    if s.len() == 0 {
        seq![cur]
    } else if s[0] == ' ' {
        seq![cur] + spec_split_sp(s.drop_first(), Seq::empty())
    } else {
        spec_split_sp(s.drop_first(), cur.push(s[0]))
    }
}

/// The tokens of `s` split on whitespace runs, empty tokens dropped, as
/// `str::split_whitespace` produces them (restricted to ASCII whitespace).
pub open spec fn spec_split_ws(s: Seq<char>, cur: Seq<char>) -> Seq<Seq<char>>
    decreases s.len(),
{
    let flush: Seq<Seq<char>> = if cur.len() > 0 {
        seq![cur]
    } else {
        Seq::empty()
    };
    if s.len() == 0 {
        flush
    } else if is_space(s[0]) {
        flush + spec_split_ws(s.drop_first(), Seq::empty())
    } else {
        spec_split_ws(s.drop_first(), cur.push(s[0]))
    }
}

proof fn lemma_contains_concat<A>(a: Seq<A>, b: Seq<A>, x: A)
    ensures
        (a + b).contains(x) <==> a.contains(x) || b.contains(x),
{
    if a.contains(x) {
        let i = choose|i: int| 0 <= i < a.len() && a[i] == x;
        assert((a + b)[i] == x);
    }
    if b.contains(x) {
        let i = choose|i: int| 0 <= i < b.len() && b[i] == x;
        assert((a + b)[a.len() + i] == x);
    }
    if (a + b).contains(x) {
        let i = choose|i: int| 0 <= i < (a + b).len() && (a + b)[i] == x;
        if i < a.len() {
            assert(a[i] == x);
        } else {
            assert(b[i - a.len()] == x);
        }
    }
}

/// Collects the characters of `s` into a vector.
pub fn chars_of(s: &str) -> (r: Vec<char>)
    ensures
        r@ == s@,
{
    let n: usize = s.unicode_len();
    let mut r: Vec<char> = Vec::new();
    let mut i: usize = 0;
    while i < n
        invariant
            0 <= i <= n,
            n == s@.len(),
            r@ == s@.subrange(0, i as int),
        decreases n - i,
    {
        r.push(s.get_char(i));
        proof {
            assert(r@ =~= s@.subrange(0, i + 1));
        }
        i = i + 1;
    }
    proof {
        assert(r@ =~= s@);
    }
    r
}

/// Relies on `String`'s `FromIterator` impl: collecting characters yields the
/// string made of exactly those characters, in order.
#[verifier::external_body]
pub fn string_from_chars(v: &Vec<char>) -> (r: String)
    ensures
        r@ == v@,
{
    v.iter().collect()
}

/// Whether `s` contains one of the tokens that `s` yields when split on single
/// spaces; `select`'s own class handling instead splits on whitespace runs,
/// which `has_token_ws` mirrors.
pub open spec fn spec_has_token_sp(s: Seq<char>, name: Seq<char>) -> bool {
    spec_split_sp(s, Seq::empty()).contains(name)
}

pub open spec fn spec_has_token_ws(s: Seq<char>, name: Seq<char>) -> bool {
    spec_split_ws(s, Seq::empty()).contains(name)
}

/// Whether splitting `s` on single spaces yields the token `name`.
pub fn has_token_sp(s: &str, name: &str) -> (r: bool)
    ensures
        r == spec_has_token_sp(s@, name@),
{
    let cs: Vec<char> = chars_of(s);
    let nm: Vec<char> = chars_of(name);
    let n: usize = cs.len();
    let mut cur: Vec<char> = Vec::new();
    let mut found: bool = false;
    let ghost full: Seq<char> = s@;
    let ghost mut done: Seq<Seq<char>> = Seq::empty();
    let mut i: usize = 0;
    proof {
        assert(full.subrange(0, n as int) =~= full);
        assert(done + spec_split_sp(full, Seq::empty()) =~= spec_split_sp(full, Seq::empty()));
    }
    while i < n
        invariant
            0 <= i <= n,
            n == full.len(),
            cs@ == full,
            nm@ == name@,
            spec_split_sp(full, Seq::empty()) == done + spec_split_sp(
                full.subrange(i as int, n as int),
                cur@,
            ),
            found == done.contains(name@),
        decreases n - i,
    {
        let c = cs[i];
        proof {
            assert(full.subrange(i as int, n as int).drop_first() =~= full.subrange(
                i + 1,
                n as int,
            ));
            assert(full.subrange(i as int, n as int)[0] == full[i as int]);
        }
        if c == ' ' {
            let eq = chars_eq(&cur, &nm);
            proof {
                lemma_contains_concat(done, seq![cur@], name@);
                assert(seq![cur@].contains(name@) == (cur@ == name@)) by {
                    if cur@ == name@ {
                        assert(seq![cur@][0] == name@);
                    }
                }
                assert(done + (seq![cur@] + spec_split_sp(full.subrange(i + 1, n as int), Seq::empty()))
                    =~= (done + seq![cur@]) + spec_split_sp(full.subrange(i + 1, n as int), Seq::empty()));
                done = done + seq![cur@];
            }
            found = found || eq;
            cur = Vec::new();
        } else {
            cur.push(c);
        }
        i = i + 1;
    }
    let eq = chars_eq(&cur, &nm);
    proof {
        assert(full.subrange(n as int, n as int) =~= Seq::<char>::empty());
        assert(spec_split_sp(Seq::<char>::empty(), cur@) =~= seq![cur@]);
        assert(spec_split_sp(full, Seq::empty()) == done + seq![cur@]);
        lemma_contains_concat(done, seq![cur@], name@);
        assert(seq![cur@].contains(name@) == (cur@ == name@)) by {
            if cur@ == name@ {
                assert(seq![cur@][0] == name@);
            }
        }
    }
    found || eq
}

/// Whether splitting `s` on whitespace runs yields the token `name`.
pub fn has_token_ws(s: &str, name: &str) -> (r: bool)
    ensures
        r == spec_has_token_ws(s@, name@),
{
    let cs: Vec<char> = chars_of(s);
    let nm: Vec<char> = chars_of(name);
    let n: usize = cs.len();
    let mut cur: Vec<char> = Vec::new();
    let mut found: bool = false;
    let ghost full: Seq<char> = s@;
    let ghost mut done: Seq<Seq<char>> = Seq::empty();
    let mut i: usize = 0;
    proof {
        assert(full.subrange(0, n as int) =~= full);
        assert(done + spec_split_ws(full, Seq::empty()) =~= spec_split_ws(full, Seq::empty()));
    }
    while i < n
        invariant
            0 <= i <= n,
            n == full.len(),
            cs@ == full,
            nm@ == name@,
            spec_split_ws(full, Seq::empty()) == done + spec_split_ws(
                full.subrange(i as int, n as int),
                cur@,
            ),
            found == done.contains(name@),
        decreases n - i,
    {
        let c = cs[i];
        proof {
            assert(full.subrange(i as int, n as int).drop_first() =~= full.subrange(
                i + 1,
                n as int,
            ));
            assert(full.subrange(i as int, n as int)[0] == full[i as int]);
        }
        if is_space_c(c) {
            if cur.len() > 0 {
                let eq = chars_eq(&cur, &nm);
                proof {
                    assert(spec_split_ws(full.subrange(i as int, n as int), cur@) == seq![cur@]
                        + spec_split_ws(full.subrange(i + 1, n as int), Seq::empty()));
                    lemma_contains_concat(done, seq![cur@], name@);
                    assert(seq![cur@].contains(name@) == (cur@ == name@)) by {
                        if cur@ == name@ {
                            assert(seq![cur@][0] == name@);
                        }
                    }
                    assert(done + (seq![cur@] + spec_split_ws(full.subrange(i + 1, n as int), Seq::empty()))
                        =~= (done + seq![cur@]) + spec_split_ws(full.subrange(i + 1, n as int), Seq::empty()));
                    done = done + seq![cur@];
                }
                found = found || eq;
                cur = Vec::new();
            } else {
                proof {
                    assert(cur@ =~= Seq::<char>::empty());
                    assert(Seq::<Seq<char>>::empty() + spec_split_ws(
                        full.subrange(i + 1, n as int),
                        Seq::empty(),
                    ) =~= spec_split_ws(full.subrange(i + 1, n as int), Seq::empty()));
                    assert(spec_split_ws(full.subrange(i as int, n as int), cur@)
                        == spec_split_ws(full.subrange(i + 1, n as int), Seq::empty()));
                }
            }
        } else {
            let ghost old_cur: Seq<char> = cur@;
            cur.push(c);
            proof {
                assert(spec_split_ws(full.subrange(i as int, n as int), old_cur)
                    == spec_split_ws(full.subrange(i + 1, n as int), old_cur.push(full[i as int])));
                assert(cur@ == old_cur.push(full[i as int]));
            }
        }
        i = i + 1;
    }
    proof {
        assert(full.subrange(n as int, n as int) =~= Seq::<char>::empty());
    }
    if cur.len() > 0 {
        let eq = chars_eq(&cur, &nm);
        proof {
            assert(spec_split_ws(full, Seq::empty()) == done + seq![cur@]);
            lemma_contains_concat(done, seq![cur@], name@);
            assert(seq![cur@].contains(name@) == (cur@ == name@)) by {
                if cur@ == name@ {
                    assert(seq![cur@][0] == name@);
                }
            }
        }
        found || eq
    } else {
        proof {
            assert(spec_split_ws(full, Seq::empty()) == done + Seq::<Seq<char>>::empty());
            assert(done + Seq::<Seq<char>>::empty() =~= done);
        }
        found
    }
}

/// Character-by-character equality of two vectors.
pub fn chars_eq(a: &Vec<char>, b: &Vec<char>) -> (r: bool)
    ensures
        r == (a@ == b@),
{
    if a.len() != b.len() {
        proof {
            assert(a@.len() != b@.len());
        }
        return false;
    }
    let n: usize = a.len();
    let mut i: usize = 0;
    while i < n
        invariant
            0 <= i <= n,
            a@.len() == n,
            b@.len() == n,
            forall|k: int| 0 <= k < i ==> a@[k] == b@[k],
        decreases n - i,
    {
        if a[i] != b[i] {
            return false;
        }
        i = i + 1;
    }
    proof {
        assert(a@ =~= b@);
    }
    true
}

/// Whether the string view equals the literal's view.
pub fn str_is(s: &str, lit: &str) -> (r: bool)
    ensures
        r == (s@ == lit@),
{
    let a = chars_of(s);
    let b = chars_of(lit);
    chars_eq(&a, &b)
}

/// The string with every newline replaced by a space.
pub open spec fn spec_replace_nl(s: Seq<char>) -> Seq<char> {
    Seq::new(s.len(), |i: int| if s[i] == '\n' { ' ' } else { s[i] })
}

pub fn replace_nl(s: &str) -> (r: String)
    ensures
        r@ == spec_replace_nl(s@),
{
    let cs = chars_of(s);
    let n: usize = cs.len();
    let mut out: Vec<char> = Vec::new();
    let mut i: usize = 0;
    while i < n
        invariant
            0 <= i <= n,
            cs@ == s@,
            n == s@.len(),
            out@ =~= spec_replace_nl(s@).subrange(0, i as int),
        decreases n - i,
    {
        let c = cs[i];
        if c == '\n' {
            out.push(' ');
        } else {
            out.push(c);
        }
        proof {
            assert(out@ =~= spec_replace_nl(s@).subrange(0, i + 1));
        }
        i = i + 1;
    }
    proof {
        assert(out@ =~= spec_replace_nl(s@));
    }
    string_from_chars(&out)
}

/// Whether `s` contains the scheme separator `://`.
pub open spec fn spec_has_scheme(s: Seq<char>) -> bool {
    exists|i: int| 0 <= i && i + 3 <= s.len() && (#[trigger] s.subrange(i, i + 3)) =~= "://"@
}

pub fn has_scheme(s: &str) -> (r: bool)
    ensures
        r == spec_has_scheme(s@),
{
    proof {
        reveal_strlit("://");
    }
    let cs = chars_of(s);
    let n: usize = cs.len();
    if n < 3 {
        proof {
            assert(!spec_has_scheme(s@));
        }
        return false;
    }
    let mut i: usize = 0;
    while i <= n - 3
        invariant
            0 <= i <= n,
            n >= 3,
            cs@ == s@,
            n == s@.len(),
            "://"@ =~= seq![':', '/', '/'],
            forall|k: int| 0 <= k < i ==> !((#[trigger] s@.subrange(k, k + 3)) =~= "://"@),
        decreases n - i,
    {
        if cs[i] == ':' && cs[i + 1] == '/' && cs[i + 2] == '/' {
            proof {
                assert(s@.subrange(i as int, i + 3) =~= "://"@);
            }
            return true;
        }
        proof {
            assert(s@.subrange(i as int, i + 3)[0] == s@[i as int]);
            assert(s@.subrange(i as int, i + 3)[1] == s@[i + 1]);
            assert(s@.subrange(i as int, i + 3)[2] == s@[i + 2]);
            assert(!(s@.subrange(i as int, i + 3) =~= "://"@));
        }
        i = i + 1;
    }
    proof {
        assert forall|k: int| 0 <= k && k + 3 <= s@.len() implies !((#[trigger] s@.subrange(
            k,
            k + 3,
        )) =~= "://"@) by {
            assert(k < i);
        }
    }
    false
}

/// The decimal digits of `n`.
pub open spec fn spec_dec(n: nat) -> Seq<char>
    decreases n,
{
    let d: char = ((48 + (n % 10)) as u8) as char;
    if n < 10 {
        seq![d]
    } else {
        spec_dec(n / 10).push(d)
    }
}

/// Renders `n` in decimal.
pub fn dec_string(n: usize) -> (r: String)
    ensures
        r@ == spec_dec(n as nat),
    decreases n,
{
    let d: u8 = 48 + (n % 10) as u8;
    let dc: char = d as char;
    if n < 10 {
        let mut v: Vec<char> = Vec::new();
        v.push(dc);
        proof {
            assert(v@ =~= spec_dec(n as nat));
        }
        string_from_chars(&v)
    } else {
        proof {
            assert(n / 10 < n) by (nonlinear_arith)
                requires
                    n >= 10,
            ;
        }
        let pre = dec_string(n / 10);
        let mut v: Vec<char> = chars_of(pre.as_str());
        v.push(dc);
        proof {
            assert(v@ =~= spec_dec(n as nat));
        }
        string_from_chars(&v)
    }
}

} // verus!
