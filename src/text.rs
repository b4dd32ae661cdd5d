//! Small string helpers shared by the parsers and the code generator.

use vstd::prelude::*;

verus! {

/// Views of a sequence of strings.
pub open spec fn str_views(v: Seq<String>) -> Seq<Seq<char>> {
    v.map_values(|s: String| s@)
}

/// Relies on `str::chars`: the characters of `s`, in order.
#[verifier::external_body]
pub fn chars_of(s: &str) -> (r: Vec<char>)
    ensures
        r@ == s@,
{
    s.chars().collect()
}

/// Whether `name` occurs among `names`, comparing by content.
pub fn contains_str(names: &Vec<String>, name: &String) -> (r: bool)
    ensures
        r == str_views(names@).contains(name@),
{
    let mut i: usize = 0;
    while i < names.len()
        invariant
            i <= names.len(),
            forall|j: int| 0 <= j < i ==> names@[j]@ != name@,
        decreases names.len() - i,
    {
        if names[i] == *name {
            assert(str_views(names@)[i as int] == name@);
            return true;
        }
        i = i + 1;
    }
    proof {
        if str_views(names@).contains(name@) {
            let k = choose|k: int| 0 <= k < str_views(names@).len() && str_views(names@)[k] == name@;
            assert(names@[k]@ == name@);
        }
    }
    false
}

/// Whether `s` is a valid bare identifier (as defined by `syn`).
pub uninterp spec fn is_identifier(s: Seq<char>) -> bool;

/// Relies on `syn::parse_str::<syn::Ident>`: succeeds exactly on text that is
/// one identifier which is neither a keyword nor `_`; never on empty text.
#[verifier::external_body]
pub fn identifier_ok(s: &str) -> (r: bool)
    ensures
        r == is_identifier(s@),
        s@.len() == 0 ==> !r,
{
    syn::parse_str::<syn::Ident>(s).is_ok()
}

/// Relies on `FromIterator<char> for String`: the characters of `v`, in order.
#[verifier::external_body]
pub fn string_of(v: &Vec<char>) -> (r: String)
    ensures
        r@ == v@,
{
    v.iter().collect()
}

/// The decimal digit for `d`.
pub open spec fn digit_char(d: nat) -> char {
    if d == 0 { '0' } else if d == 1 { '1' } else if d == 2 { '2' } else if d == 3 { '3' }
    else if d == 4 { '4' } else if d == 5 { '5' } else if d == 6 { '6' } else if d == 7 { '7' }
    else if d == 8 { '8' } else { '9' }
}

/// `n` written in decimal, without leading zeros.
pub open spec fn decimal_of(n: nat) -> Seq<char>
    decreases n,
{
    if n < 10 {
        seq![digit_char(n)]
    } else {
        decimal_of(n / 10).push(digit_char(n % 10))
    }
}

fn digit(d: usize) -> (c: char)
    requires
        d < 10,
    ensures
        c == digit_char(d as nat),
{
    if d == 0 { '0' } else if d == 1 { '1' } else if d == 2 { '2' } else if d == 3 { '3' }
    else if d == 4 { '4' } else if d == 5 { '5' } else if d == 6 { '6' } else if d == 7 { '7' }
    else if d == 8 { '8' } else { '9' }
}

/// `n` in decimal.
pub fn decimal(n: usize) -> (r: String)
    ensures
        r@ == decimal_of(n as nat),
{
    let mut rev: Vec<char> = Vec::new();
    let mut m: usize = n;
    // rev holds the low digits of n, lowest first; m the rest
    while m >= 10
        invariant
            decimal_of(n as nat) == decimal_of(m as nat) + rev@.reverse(),
        decreases m,
    {
        let d = m % 10;
        rev.push(digit(d));
        proof {
            assert(decimal_of(m as nat) == decimal_of((m / 10) as nat).push(digit_char((m % 10) as nat)));
            assert(rev@.reverse() =~= seq![digit_char(d as nat)] + rev@.drop_last().reverse());
        }
        m = m / 10;
    }
    rev.push(digit(m));
    let mut out: Vec<char> = Vec::new();
    let mut i: usize = rev.len();
    while i > 0
        invariant
            i <= rev@.len(),
            out@ == rev@.subrange(i as int, rev@.len() as int).reverse(),
        decreases i,
    {
        i = i - 1;
        out.push(rev[i]);
        assert(rev@.subrange(i as int, rev@.len() as int).reverse() =~= rev@.subrange(i + 1, rev@.len() as int).reverse().push(rev@[i as int]));
    }
    proof {
        assert(rev@.subrange(0, rev@.len() as int) =~= rev@);
        assert(rev@.reverse() =~= seq![digit_char(m as nat)] + rev@.drop_last().reverse());
    }
    string_of(&out)
}

/// Text of `s` as `Debug` writes a string: quoted, with escapes.
pub uninterp spec fn debug_text(s: Seq<char>) -> Seq<char>;

/// Relies on `<str as Debug>::fmt`: the quoted and escaped form of `s`, which
/// depends on the characters alone.
#[verifier::external_body]
pub fn debug_str(s: &str) -> (r: String)
    ensures
        r@ == debug_text(s@),
{
    format!("{s:?}")
}

/// `s` in `snake_case`, words split at case changes and separators.
pub uninterp spec fn snake_case_of(s: Seq<char>) -> Seq<char>;

/// Relies on `convert_case::Casing::to_case(Case::Snake)`: the result depends
/// on the characters of `s` alone.
#[verifier::external_body]
pub fn snake_case(s: &str) -> (r: String)
    ensures
        r@ == snake_case_of(s@),
{
    convert_case::Casing::to_case(&s, convert_case::Case::Snake)
}

/// `s` in `PascalCase`, words split at case changes and separators.
pub uninterp spec fn pascal_case_of(s: Seq<char>) -> Seq<char>;

/// Relies on `convert_case::Casing::to_case(Case::Pascal)`: the result depends
/// on the characters of `s` alone.
#[verifier::external_body]
pub fn pascal_case(s: &str) -> (r: String)
    ensures
        r@ == pascal_case_of(s@),
{
    convert_case::Casing::to_case(&s, convert_case::Case::Pascal)
}

/// `s` in `UPPER_SNAKE_CASE`, words split at case changes and separators.
pub uninterp spec fn upper_snake_case_of(s: Seq<char>) -> Seq<char>;

/// Relies on `convert_case::Casing::to_case(Case::UpperSnake)`: the result
/// depends on the characters of `s` alone.
#[verifier::external_body]
pub fn upper_snake_case(s: &str) -> (r: String)
    ensures
        r@ == upper_snake_case_of(s@),
{
    convert_case::Casing::to_case(&s, convert_case::Case::UpperSnake)
}

/// Whether `s` parses as a Rust type (as defined by `syn`).
pub uninterp spec fn is_type(s: Seq<char>) -> bool;

/// Relies on `syn::parse_str::<syn::Type>`: whether the whole text is one
/// type; never on empty text.
#[verifier::external_body]
pub fn type_ok(s: &str) -> (r: bool)
    ensures
        r == is_type(s@),
        s@.len() == 0 ==> !r,
{
    syn::parse_str::<syn::Type>(s).is_ok()
}

/// Whether `c` may continue an identifier (Unicode `XID_Continue`).
pub uninterp spec fn xid_continue(c: char) -> bool;

/// Relies on `unicode_ident::is_xid_continue`: a property of the character alone.
#[verifier::external_body]
pub fn is_xid_continue(c: char) -> (r: bool)
    ensures
        r == xid_continue(c),
{
    unicode_ident::is_xid_continue(c)
}

/// Whether `c` has the Unicode `White_Space` property.
pub uninterp spec fn white_space(c: char) -> bool;

/// Relies on `char::is_whitespace`: a property of the character alone.
#[verifier::external_body]
pub fn is_white_space(c: char) -> (r: bool)
    ensures
        r == white_space(c),
{
    c.is_whitespace()
}

/// Separators of a list of names: white space and commas.
pub open spec fn name_separator(c: char) -> bool {
    white_space(c) || c == ','
}

/// The words of the first `n` characters of `s`, and the word still open.
pub open spec fn split_prefix(s: Seq<char>, n: int) -> (Seq<Seq<char>>, Seq<char>)
    decreases n,
{
    if n <= 0 {
        (Seq::empty(), Seq::empty())
    } else {
        let (done, cur) = split_prefix(s, n - 1);
        if name_separator(s[n - 1]) {
            if cur.len() > 0 { (done.push(cur), Seq::empty()) } else { (done, cur) }
        } else {
            (done, cur.push(s[n - 1]))
        }
    }
}

/// The non-empty words of `s` between separators, in order.
pub open spec fn split_names(s: Seq<char>) -> Seq<Seq<char>> {
    let (done, cur) = split_prefix(s, s.len() as int);
    if cur.len() > 0 { done.push(cur) } else { done }
}

/// Splits a list of names at white space and commas, dropping empty parts.
pub fn split_name_list(s: &str) -> (r: Vec<String>)
    ensures
        str_views(r@) == split_names(s@),
{
    let cs = chars_of(s);
    let mut done: Vec<String> = Vec::new();
    let mut cur: Vec<char> = Vec::new();
    let mut i: usize = 0;
    while i < cs.len()
        invariant
            i <= cs@.len(),
            cs@ == s@,
            (str_views(done@), cur@) == split_prefix(s@, i as int),
        decreases cs.len() - i,
    {
        let c = cs[i];
        if is_white_space(c) || c == ',' {
            if cur.len() > 0 {
                let w = string_of(&cur);
                done.push(w);
                cur = Vec::new();
                assert(str_views(done@) =~= split_prefix(s@, i as int).0.push(w@));
            }
        } else {
            cur.push(c);
        }
        i = i + 1;
    }
    if cur.len() > 0 {
        let w = string_of(&cur);
        done.push(w);
        assert(str_views(done@) =~= split_prefix(s@, i as int).0.push(w@));
    }
    done
}

pub open spec fn char_views(v: Seq<Vec<char>>) -> Seq<Seq<char>> {
    v.map_values(|c: Vec<char>| c@)
}

/// The lines of the first `n` characters of `s`, and the line still open.
pub open spec fn lines_prefix(s: Seq<char>, n: int) -> (Seq<Seq<char>>, Seq<char>)
    decreases n,
{
    if n <= 0 {
        (Seq::empty(), Seq::empty())
    } else {
        let (done, cur) = lines_prefix(s, n - 1);
        if s[n - 1] == '\n' {
            (done.push(cur), Seq::empty())
        } else {
            (done, cur.push(s[n - 1]))
        }
    }
}

/// The lines of `s`, split at `\n`; a final line ending adds no empty line.
pub open spec fn text_lines(s: Seq<char>) -> Seq<Seq<char>> {
    let (done, cur) = lines_prefix(s, s.len() as int);
    if cur.len() > 0 { done.push(cur) } else { done }
}

/// Splits `s` into lines as [`text_lines`] does.
pub fn split_lines(s: &Vec<char>) -> (r: Vec<Vec<char>>)
    ensures
        char_views(r@) == text_lines(s@),
{
    let mut done: Vec<Vec<char>> = Vec::new();
    let mut cur: Vec<char> = Vec::new();
    let mut i: usize = 0;
    while i < s.len()
        invariant
            i <= s@.len(),
            (char_views(done@), cur@) == lines_prefix(s@, i as int),
        decreases s.len() - i,
    {
        if s[i] == '\n' {
            let line = cur;
            cur = Vec::new();
            let ghost lv = line@;
            done.push(line);
            assert(char_views(done@) =~= lines_prefix(s@, i as int).0.push(lv));
        } else {
            cur.push(s[i]);
        }
        i = i + 1;
    }
    if cur.len() > 0 {
        let ghost lv = cur@;
        done.push(cur);
        assert(char_views(done@) =~= lines_prefix(s@, i as int).0.push(lv));
    }
    done
}

/// `s` without leading white space.
pub open spec fn trim_front(s: Seq<char>) -> Seq<char>
    decreases s.len(),
{
    if s.len() > 0 && white_space(s[0]) { trim_front(s.drop_first()) } else { s }
}

/// `s` without trailing white space.
pub open spec fn trim_back(s: Seq<char>) -> Seq<char>
    decreases s.len(),
{
    if s.len() > 0 && white_space(s.last()) { trim_back(s.drop_last()) } else { s }
}

/// `s` without leading and trailing white space.
pub open spec fn trimmed(s: Seq<char>) -> Seq<char> {
    trim_back(trim_front(s))
}

/// The characters `lo..hi` of `s`, trimmed.
pub fn trim_chars(s: &Vec<char>, lo: usize, hi: usize) -> (r: Vec<char>)
    requires
        lo <= hi <= s@.len(),
    ensures
        r@ == trimmed(s@.subrange(lo as int, hi as int)),
{
    let mut a = lo;
    while a < hi && is_white_space(s[a])
        invariant
            lo <= a <= hi <= s@.len(),
            trim_front(s@.subrange(lo as int, hi as int)) == trim_front(s@.subrange(a as int, hi as int)),
        decreases hi - a,
    {
        assert(s@.subrange(a as int, hi as int).drop_first() =~= s@.subrange(a + 1, hi as int));
        a = a + 1;
    }
    assert(trim_front(s@.subrange(a as int, hi as int)) == s@.subrange(a as int, hi as int));
    let mut b = hi;
    while b > a && is_white_space(s[b - 1])
        invariant
            lo <= a <= b <= hi <= s@.len(),
            trimmed(s@.subrange(lo as int, hi as int)) == trim_back(s@.subrange(a as int, b as int)),
        decreases b - a,
    {
        assert(s@.subrange(a as int, b as int).drop_last() =~= s@.subrange(a as int, b - 1));
        b = b - 1;
    }
    assert(trim_back(s@.subrange(a as int, b as int)) == s@.subrange(a as int, b as int));
    let mut r: Vec<char> = Vec::new();
    let mut k = a;
    while k < b
        invariant
            a <= k <= b <= s@.len(),
            r@ == s@.subrange(a as int, k as int),
        decreases b - k,
    {
        r.push(s[k]);
        assert(r@ =~= s@.subrange(a as int, k + 1));
        k = k + 1;
    }
    r
}

/// The first position of `c` in `s`.
pub fn find_char(s: &Vec<char>, c: char) -> (r: Option<usize>)
    ensures
        r is Some == s@.contains(c),
        r is Some ==> (r->0 as int) < s@.len() && s@[r->0 as int] == c
            && forall|j: int| 0 <= j < r->0 ==> s@[j] != c,
{
    let mut i: usize = 0;
    while i < s.len()
        invariant
            i <= s@.len(),
            forall|j: int| 0 <= j < i ==> s@[j] != c,
        decreases s.len() - i,
    {
        if s[i] == c {
            return Some(i);
        }
        i = i + 1;
    }
    None
}

} // verus!
