//! Text as sequences of characters: the searches, splits and conversions that
//! log attribution, parsers and message building rest on.

use vstd::prelude::*;
use vstd::string::*;

verus! {

broadcast use vstd::string::group_string_axioms;

/// `String::push` appends the given character to the end of the string.
pub assume_specification[ String::push ](s: &mut String, c: char)
    ensures
        final(s)@ == old(s)@.push(c),
;

// ---------------------------------------------------------------- characters

/// A character with the Unicode `White_Space` property.
pub open spec fn is_white(c: char) -> bool {
    ||| '\u{9}' <= c <= '\u{d}'
    ||| c == ' '
    ||| c == '\u{85}'
    ||| c == '\u{a0}'
    ||| c == '\u{1680}'
    ||| '\u{2000}' <= c <= '\u{200a}'
    ||| c == '\u{2028}'
    ||| c == '\u{2029}'
    ||| c == '\u{202f}'
    ||| c == '\u{205f}'
    ||| c == '\u{3000}'
}

/// Whether `c` is white space.
pub fn white(c: char) -> (r: bool)
    ensures
        r == is_white(c),
{
    ('\u{9}' <= c && c <= '\u{d}') || c == ' ' || c == '\u{85}' || c == '\u{a0}' || c == '\u{1680}'
        || ('\u{2000}' <= c && c <= '\u{200a}') || c == '\u{2028}' || c == '\u{2029}' || c
        == '\u{202f}' || c == '\u{205f}' || c == '\u{3000}'
}

/// An ASCII letter or digit.
pub open spec fn is_alnum(c: char) -> bool {
    ||| 'a' <= c <= 'z'
    ||| 'A' <= c <= 'Z'
    ||| '0' <= c <= '9'
}

/// Whether `c` is an ASCII letter or digit.
pub fn alnum(c: char) -> (r: bool)
    ensures
        r == is_alnum(c),
{
    ('a' <= c && c <= 'z') || ('A' <= c && c <= 'Z') || ('0' <= c && c <= '9')
}

/// `c` with an ASCII capital replaced by its small letter.
pub open spec fn lower_char(c: char) -> char {
    if 'A' <= c <= 'Z' {
        ((c as int) + 32) as char
    } else {
        c
    }
}

/// `c` with an ASCII small letter replaced by its capital.
pub open spec fn upper_char(c: char) -> char {
    if 'a' <= c <= 'z' {
        ((c as int) - 32) as char
    } else {
        c
    }
}

fn to_lower_char(c: char) -> (r: char)
    ensures
        r == lower_char(c),
{
    if 'A' <= c && c <= 'Z' {
        ((c as u8) + 32) as char
    } else {
        c
    }
}

fn to_upper_char(c: char) -> (r: char)
    ensures
        r == upper_char(c),
{
    if 'a' <= c && c <= 'z' {
        ((c as u8) - 32) as char
    } else {
        c
    }
}

// ---------------------------------------------------------------- conversion

/// The characters of `s`.
pub fn chars_of(s: &str) -> (r: Vec<char>)
    ensures
        r@ == s@,
{
    let mut out: Vec<char> = Vec::new();
    for c in it: s.chars()
        invariant
            out@ == it.seq().take(it.index()),
            it.seq() == s@,
    {
        proof {
            assert(it.seq().take(it.index() + 1) =~= it.seq().take(it.index()).push(c));
        }
        out.push(c);
    }
    proof {
        assert(s@.take(s@.len() as int) =~= s@);
    }
    out
}

/// The string made of the characters `chars[from..to]`.
pub fn string_of(chars: &Vec<char>, from: usize, to: usize) -> (r: String)
    requires
        from <= to <= chars.len(),
    ensures
        r@ == chars@.subrange(from as int, to as int),
{
    let mut out = String::new();
    let mut i: usize = from;
    while i < to
        invariant
            from <= i <= to <= chars.len(),
            out@ == chars@.subrange(from as int, i as int),
        decreases to - i,
    {
        out.push(chars[i]);
        i = i + 1;
        proof {
            assert(chars@.subrange(from as int, i as int) =~= chars@.subrange(
                from as int,
                i - 1,
            ).push(chars@[i - 1]));
        }
    }
    out
}

/// An owned copy of `s`.
pub fn owned(s: &str) -> (r: String)
    ensures
        r@ == s@,
{
    s.to_owned()
}

/// The views of a list of strings.
pub open spec fn texts(v: Seq<String>) -> Seq<Seq<char>> {
    v.map_values(|s: String| s@)
}

/// The view of an optional string.
pub open spec fn opt_text(o: Option<String>) -> Option<Seq<char>> {
    match o {
        Some(s) => Some(s@),
        None => None,
    }
}

/// A copy of a list of strings.
pub fn copy_all(v: &Vec<String>) -> (r: Vec<String>)
    ensures
        texts(r@) == texts(v@),
{
    let mut out: Vec<String> = Vec::new();
    let mut i: usize = 0;
    while i < v.len()
        invariant
            i <= v.len(),
            out.len() == i,
            forall|k: int| 0 <= k < i ==> (#[trigger] out@[k])@ == v@[k]@,
        decreases v.len() - i,
    {
        out.push(v[i].clone());
        i = i + 1;
    }
    proof {
        assert(texts(out@) =~= texts(v@));
    }
    out
}

/// A copy of an optional string.
pub fn copy_opt(o: &Option<String>) -> (r: Option<String>)
    ensures
        opt_text(r) == opt_text(*o),
{
    match o {
        Some(s) => Some(s.clone()),
        None => None,
    }
}

// -------------------------------------------------------------- concatenation

/// `a` followed by `b`.
pub fn cat2(a: &str, b: &str) -> (r: String)
    ensures
        r@ == a@ + b@,
{
    let mut out = a.to_owned();
    out.append(b);
    out
}

/// `a`, `b` and `c` in a row.
pub fn cat3(a: &str, b: &str, c: &str) -> (r: String)
    ensures
        r@ == a@ + b@ + c@,
{
    let mut out = cat2(a, b);
    out.append(c);
    out
}

/// Four texts in a row.
pub fn cat4(a: &str, b: &str, c: &str, d: &str) -> (r: String)
    ensures
        r@ == a@ + b@ + c@ + d@,
{
    let mut out = cat3(a, b, c);
    out.append(d);
    out
}

/// Five texts in a row.
pub fn cat5(a: &str, b: &str, c: &str, d: &str, e: &str) -> (r: String)
    ensures
        r@ == a@ + b@ + c@ + d@ + e@,
{
    let mut out = cat4(a, b, c, d);
    out.append(e);
    out
}

/// The texts of `parts`, each but the last followed by `sep`.
pub open spec fn join_text(parts: Seq<Seq<char>>, sep: Seq<char>) -> Seq<char>
    decreases parts.len(),
{
    if parts.len() == 0 {
        Seq::empty()
    } else if parts.len() == 1 {
        parts[0]
    } else {
        join_text(parts.drop_last(), sep) + sep + parts.last()
    }
}

/// `parts` joined with `sep` between them.
pub fn join(parts: &Vec<String>, sep: &str) -> (r: String)
    ensures
        r@ == join_text(texts(parts@), sep@),
{
    let mut out = String::new();
    let mut i: usize = 0;
    proof {
        assert(texts(parts@).take(0) =~= Seq::<Seq<char>>::empty());
    }
    while i < parts.len()
        invariant
            i <= parts.len(),
            out@ == join_text(texts(parts@).take(i as int), sep@),
        decreases parts.len() - i,
    {
        let ghost done = texts(parts@).take(i as int);
        let ghost next = texts(parts@).take(i + 1);
        proof {
            assert(next.drop_last() =~= done);
            assert(next.last() == parts@[i as int]@);
        }
        if i > 0 {
            out.append(sep);
        }
        out.append(parts[i].as_str());
        proof {
            if i == 0 {
                assert(out@ =~= next[0]);
            }
        }
        i = i + 1;
    }
    proof {
        assert(texts(parts@).take(parts@.len() as int) =~= texts(parts@));
    }
    out
}

// ------------------------------------------------------------------ equality

/// Whether two texts are the same.
pub fn same(a: &str, b: &str) -> (r: bool)
    ensures
        r == (a@ == b@),
{
    a.to_owned() == b.to_owned()
}

/// Whether `text` is one of `list`.
pub fn listed(list: &Vec<String>, text: &str) -> (r: bool)
    ensures
        r == texts(list@).contains(text@),
{
    let mut i: usize = 0;
    while i < list.len()
        invariant
            i <= list.len(),
            forall|k: int| 0 <= k < i ==> (#[trigger] texts(list@)[k]) != text@,
        decreases list.len() - i,
    {
        if same(list[i].as_str(), text) {
            proof {
                assert(texts(list@)[i as int] == text@);
            }
            return true;
        }
        i = i + 1;
    }
    false
}

// --------------------------------------------------------------------- order

/// `a` comes before `b` in the order of their characters.
pub open spec fn text_before(a: Seq<char>, b: Seq<char>) -> bool
    decreases a.len(),
{
    if b.len() == 0 {
        false
    } else if a.len() == 0 {
        true
    } else if a[0] != b[0] {
        a[0] < b[0]
    } else {
        text_before(a.drop_first(), b.drop_first())
    }
}

/// The order of texts is asymmetric, and tells apart all that differ.
pub proof fn lemma_text_order(a: Seq<char>, b: Seq<char>)
    ensures
        !(text_before(a, b) && text_before(b, a)),
        a != b ==> text_before(a, b) || text_before(b, a),
        a == b ==> !text_before(a, b),
    decreases a.len(),
{
    if a.len() > 0 && b.len() > 0 && a[0] == b[0] {
        lemma_text_order(a.drop_first(), b.drop_first());
        if a.drop_first() == b.drop_first() {
            assert(a =~= seq![a[0]] + a.drop_first());
            assert(b =~= seq![b[0]] + b.drop_first());
        }
    } else if a.len() == 0 && b.len() == 0 {
        assert(a =~= b);
    }
}

/// The order of texts is transitive.
pub proof fn lemma_text_order_transitive(a: Seq<char>, b: Seq<char>, c: Seq<char>)
    requires
        text_before(a, b),
        text_before(b, c),
    ensures
        text_before(a, c),
    decreases a.len(),
{
    if a.len() > 0 && b.len() > 0 && c.len() > 0 && a[0] == b[0] && b[0] == c[0] {
        lemma_text_order_transitive(a.drop_first(), b.drop_first(), c.drop_first());
    }
}

/// Whether `a` comes before `b` in the order of their characters.
pub fn is_before(a: &str, b: &str) -> (r: bool)
    ensures
        r == text_before(a@, b@),
{
    let ac = chars_of(a);
    let bc = chars_of(b);
    let mut i: usize = 0;
    proof {
        assert(ac@.skip(0) =~= a@);
        assert(bc@.skip(0) =~= b@);
    }
    while i < ac.len() && i < bc.len()
        invariant
            i <= ac.len(),
            i <= bc.len(),
            text_before(a@, b@) == text_before(ac@.skip(i as int), bc@.skip(i as int)),
        decreases ac.len() - i,
    {
        let ghost sa = ac@.skip(i as int);
        let ghost sb = bc@.skip(i as int);
        proof {
            assert(sa[0] == ac@[i as int]);
            assert(sb[0] == bc@[i as int]);
            assert(sa.drop_first() =~= ac@.skip(i + 1));
            assert(sb.drop_first() =~= bc@.skip(i + 1));
        }
        if ac[i] != bc[i] {
            return ac[i] < bc[i];
        }
        i = i + 1;
    }
    i < bc.len()
}

// -------------------------------------------------------------------- search

/// `pat` stands in `s` at index `i`.
pub open spec fn occurs_at(s: Seq<char>, pat: Seq<char>, i: int) -> bool {
    0 <= i && i + pat.len() <= s.len() && s.subrange(i, i + pat.len()) == pat
}

/// `pat` stands somewhere in `s`.
pub open spec fn has(s: Seq<char>, pat: Seq<char>) -> bool {
    exists|i: int| occurs_at(s, pat, i)
}

/// `s` begins with `pat`.
pub open spec fn begins(s: Seq<char>, pat: Seq<char>) -> bool {
    occurs_at(s, pat, 0)
}

/// `s` ends with `pat`.
pub open spec fn ends(s: Seq<char>, pat: Seq<char>) -> bool {
    occurs_at(s, pat, s.len() - pat.len())
}

/// The first index at or after `from` at which `pat` stands in `s`.
pub open spec fn first_from(s: Seq<char>, pat: Seq<char>, from: int) -> Option<int>
    decreases s.len() - from + 1,
{
    if from < 0 || from + pat.len() > s.len() {
        None
    } else if occurs_at(s, pat, from) {
        Some(from)
    } else {
        first_from(s, pat, from + 1)
    }
}

/// The last index at or before `upto` at which `pat` stands in `s`.
pub open spec fn last_upto(s: Seq<char>, pat: Seq<char>, upto: int) -> Option<int>
    decreases upto + 1,
{
    if upto < 0 {
        None
    } else if occurs_at(s, pat, upto) {
        Some(upto)
    } else {
        last_upto(s, pat, upto - 1)
    }
}

/// Where `pat` stands in `s`, from `from` on, when each occurrence is
/// consumed before the next one is looked for.
pub open spec fn matches_from(s: Seq<char>, pat: Seq<char>, from: int) -> Seq<int>
    decreases s.len() - from,
{
    if pat.len() == 0 || from < 0 || from + pat.len() > s.len() {
        Seq::empty()
    } else if occurs_at(s, pat, from) {
        seq![from] + matches_from(s, pat, from + pat.len())
    } else {
        matches_from(s, pat, from + 1)
    }
}

/// `first_from` gives the least index, or none where there is no occurrence.
pub proof fn lemma_first_from(s: Seq<char>, pat: Seq<char>, from: int)
    requires
        0 <= from,
    ensures
        match first_from(s, pat, from) {
            Some(i) => from <= i && occurs_at(s, pat, i) && forall|j: int|
                from <= j < i ==> !occurs_at(s, pat, j),
            None => forall|j: int| from <= j ==> !occurs_at(s, pat, j),
        },
    decreases s.len() - from + 1,
{
    if from + pat.len() <= s.len() && !occurs_at(s, pat, from) {
        lemma_first_from(s, pat, from + 1);
        assert forall|j: int|
            from <= j && (first_from(s, pat, from) matches Some(i) ==> j < i) implies !occurs_at(
            s,
            pat,
            j,
        ) by {
            if j > from {
            }
        }
    }
}

/// `s` holds `pat` exactly where a first occurrence exists.
pub proof fn lemma_has_first(s: Seq<char>, pat: Seq<char>)
    ensures
        has(s, pat) == (first_from(s, pat, 0) is Some),
{
    lemma_first_from(s, pat, 0);
    if has(s, pat) {
        let i = choose|i: int| occurs_at(s, pat, i);
        assert(occurs_at(s, pat, i));
    }
}

/// Whether `pat` stands in `s` at index `i`.
pub fn at(s: &Vec<char>, pat: &Vec<char>, i: usize) -> (r: bool)
    ensures
        r == occurs_at(s@, pat@, i as int),
{
    if pat.len() > s.len() || i > s.len() - pat.len() {
        return false;
    }
    let mut k: usize = 0;
    while k < pat.len()
        invariant
            k <= pat.len(),
            i + pat.len() <= s.len(),
            forall|j: int| 0 <= j < k ==> s@[i + j] == pat@[j],
        decreases pat.len() - k,
    {
        if s[i + k] != pat[k] {
            proof {
                assert(s@.subrange(i as int, i + pat.len())[k as int] != pat@[k as int]);
            }
            return false;
        }
        k = k + 1;
    }
    proof {
        assert(s@.subrange(i as int, i + pat.len()) =~= pat@);
    }
    true
}

/// The first index at or after `from` at which `pat` stands in `s`.
pub fn find_from(s: &Vec<char>, pat: &Vec<char>, from: usize) -> (r: Option<usize>)
    ensures
        match r {
            Some(i) => first_from(s@, pat@, from as int) == Some(i as int) && from <= i && i
                + pat.len() <= s.len() && occurs_at(s@, pat@, i as int),
            None => first_from(s@, pat@, from as int) is None,
        },
{
    let mut i: usize = from;
    while i <= s.len() && pat.len() <= s.len() - i
        invariant
            from <= i,
            first_from(s@, pat@, from as int) == first_from(s@, pat@, i as int),
        decreases s.len() + 1 - i,
    {
        if at(s, pat, i) {
            return Some(i);
        }
        proof {
            if i == s.len() {
                assert(s@.subrange(i as int, i as int) =~= pat@);
            }
        }
        i = i + 1;
    }
    None
}

/// Whether `pat` stands somewhere in `s`.
pub fn contains(s: &str, pat: &str) -> (r: bool)
    ensures
        r == has(s@, pat@),
{
    let sc = chars_of(s);
    let pc = chars_of(pat);
    proof {
        lemma_has_first(s@, pat@);
    }
    find_from(&sc, &pc, 0).is_some()
}

/// Whether `s` begins with `pat`.
pub fn starts_with(s: &str, pat: &str) -> (r: bool)
    ensures
        r == begins(s@, pat@),
{
    at(&chars_of(s), &chars_of(pat), 0)
}

/// Whether `s` ends with `pat`.
pub fn ends_with(s: &str, pat: &str) -> (r: bool)
    ensures
        r == ends(s@, pat@),
{
    let sc = chars_of(s);
    let pc = chars_of(pat);
    if pc.len() > sc.len() {
        false
    } else {
        at(&sc, &pc, sc.len() - pc.len())
    }
}

/// The last index at which `pat` stands in `s`.
pub fn rfind(s: &Vec<char>, pat: &Vec<char>) -> (r: Option<usize>)
    ensures
        match r {
            Some(i) => last_upto(s@, pat@, s@.len() as int) == Some(i as int) && i + pat.len()
                <= s.len() && occurs_at(s@, pat@, i as int),
            None => last_upto(s@, pat@, s@.len() as int) is None,
        },
{
    let mut i: usize = s.len();
    loop
        invariant
            i <= s.len(),
            last_upto(s@, pat@, s@.len() as int) == last_upto(s@, pat@, i as int),
        decreases i,
    {
        if at(s, pat, i) {
            return Some(i);
        }
        if i == 0 {
            proof {
                assert(last_upto(s@, pat@, -1) is None);
            }
            return None;
        }
        i = i - 1;
    }
}

/// The positions of `matches_from`, as machine integers.
pub open spec fn as_ints(v: Seq<usize>) -> Seq<int> {
    v.map_values(|i: usize| i as int)
}

/// Where `pat` stands in `s`, each occurrence consumed before the next.
pub fn match_positions(s: &Vec<char>, pat: &Vec<char>) -> (r: Vec<usize>)
    ensures
        as_ints(r@) == matches_from(s@, pat@, 0),
        forall|k: int| 0 <= k < r.len() ==> (#[trigger] r@[k]) + pat.len() <= s.len(),
{
    let mut out: Vec<usize> = Vec::new();
    if pat.len() == 0 {
        proof {
            assert(as_ints(out@) =~= matches_from(s@, pat@, 0));
        }
        return out;
    }
    let mut i: usize = 0;
    proof {
        assert(as_ints(out@) + matches_from(s@, pat@, 0) =~= matches_from(s@, pat@, 0));
    }
    while i <= s.len() && pat.len() <= s.len() - i
        invariant
            pat.len() > 0,
            i <= s.len(),
            as_ints(out@) + matches_from(s@, pat@, i as int) == matches_from(s@, pat@, 0),
            forall|k: int| 0 <= k < out.len() ==> (#[trigger] out@[k]) + pat.len() <= s.len(),
        decreases s.len() - i,
    {
        let ghost before = out@;
        if at(s, pat, i) {
            out.push(i);
            proof {
                let rest = matches_from(s@, pat@, i + pat.len());
                assert(as_ints(out@) + rest =~= as_ints(before) + (seq![i as int] + rest));
            }
            i = i + pat.len();
        } else {
            i = i + 1;
        }
    }
    proof {
        assert(as_ints(out@) + matches_from(s@, pat@, i as int) =~= as_ints(out@));
    }
    out
}

// ------------------------------------------------------------ case and trims

/// `s` with ASCII capitals made small.
pub open spec fn lower_text(s: Seq<char>) -> Seq<char> {
    s.map_values(|c: char| lower_char(c))
}

/// `s` with ASCII small letters made capital.
pub open spec fn upper_text(s: Seq<char>) -> Seq<char> {
    s.map_values(|c: char| upper_char(c))
}

/// `s` with every `a` replaced by `b`.
pub open spec fn swap_text(s: Seq<char>, a: char, b: char) -> Seq<char> {
    s.map_values(|c: char| if c == a { b } else { c })
}

/// `s` with ASCII capitals made small.
pub fn to_lower(s: &str) -> (r: String)
    ensures
        r@ == lower_text(s@),
{
    let sc = chars_of(s);
    let mut out = String::new();
    let mut i: usize = 0;
    while i < sc.len()
        invariant
            i <= sc.len(),
            out@ == lower_text(sc@.take(i as int)),
        decreases sc.len() - i,
    {
        out.push(to_lower_char(sc[i]));
        i = i + 1;
        proof {
            assert(lower_text(sc@.take(i as int)) =~= lower_text(sc@.take(i - 1)).push(
                lower_char(sc@[i - 1]),
            ));
        }
    }
    proof {
        assert(sc@.take(sc@.len() as int) =~= sc@);
    }
    out
}

/// `s` with ASCII small letters made capital.
pub fn to_upper(s: &str) -> (r: String)
    ensures
        r@ == upper_text(s@),
{
    let sc = chars_of(s);
    let mut out = String::new();
    let mut i: usize = 0;
    while i < sc.len()
        invariant
            i <= sc.len(),
            out@ == upper_text(sc@.take(i as int)),
        decreases sc.len() - i,
    {
        out.push(to_upper_char(sc[i]));
        i = i + 1;
        proof {
            assert(upper_text(sc@.take(i as int)) =~= upper_text(sc@.take(i - 1)).push(
                upper_char(sc@[i - 1]),
            ));
        }
    }
    proof {
        assert(sc@.take(sc@.len() as int) =~= sc@);
    }
    out
}

/// `s` with every `a` replaced by `b`.
pub fn swap_char(s: &str, a: char, b: char) -> (r: String)
    ensures
        r@ == swap_text(s@, a, b),
{
    let sc = chars_of(s);
    let mut out = String::new();
    let mut i: usize = 0;
    while i < sc.len()
        invariant
            i <= sc.len(),
            out@ == swap_text(sc@.take(i as int), a, b),
        decreases sc.len() - i,
    {
        let c = sc[i];
        out.push(if c == a { b } else { c });
        i = i + 1;
        proof {
            assert(swap_text(sc@.take(i as int), a, b) =~= swap_text(sc@.take(i - 1), a, b).push(
                if sc@[i - 1] == a { b } else { sc@[i - 1] },
            ));
        }
    }
    proof {
        assert(sc@.take(sc@.len() as int) =~= sc@);
    }
    out
}

/// `s` without the characters at its start that `drop` accepts.
pub open spec fn trim_start_by(s: Seq<char>, drop: spec_fn(char) -> bool) -> Seq<char>
    decreases s.len(),
{
    if s.len() > 0 && drop(s[0]) {
        trim_start_by(s.drop_first(), drop)
    } else {
        s
    }
}

/// `s` without the characters at its end that `drop` accepts.
pub open spec fn trim_end_by(s: Seq<char>, drop: spec_fn(char) -> bool) -> Seq<char>
    decreases s.len(),
{
    if s.len() > 0 && drop(s.last()) {
        trim_end_by(s.drop_last(), drop)
    } else {
        s
    }
}

/// `s` without white space at its ends.
pub open spec fn trim_text(s: Seq<char>) -> Seq<char> {
    trim_end_by(trim_start_by(s, |c: char| is_white(c)), |c: char| is_white(c))
}

/// Trimming nothing off the start gives no more than the text, and likewise at
/// the end.
proof fn lemma_trim_start_len(s: Seq<char>, drop: spec_fn(char) -> bool)
    ensures
        trim_start_by(s, drop).len() <= s.len(),
    decreases s.len(),
{
    if s.len() > 0 && drop(s[0]) {
        lemma_trim_start_len(s.drop_first(), drop);
    }
}

proof fn lemma_trim_end_len(s: Seq<char>, drop: spec_fn(char) -> bool)
    ensures
        trim_end_by(s, drop).len() <= s.len(),
    decreases s.len(),
{
    if s.len() > 0 && drop(s.last()) {
        lemma_trim_end_len(s.drop_last(), drop);
    }
}

/// A text that trimming keeps has no white space at its ends.
pub proof fn lemma_trim_keeps(s: Seq<char>)
    requires
        s.len() > 0,
        trim_text(s) == s,
    ensures
        !is_white(s[0]),
        !is_white(s.last()),
        trim_end_by(s, |c: char| is_white(c)) == s,
{
    let f = |c: char| is_white(c);
    let t = trim_start_by(s, f);
    lemma_trim_start_len(s, f);
    lemma_trim_end_len(t, f);
    if is_white(s[0]) {
        assert(f(s[0]));
        lemma_trim_start_len(s.drop_first(), f);
        assert(false);
    }
    assert(t == s);
    if is_white(s.last()) {
        assert(f(s.last()));
        lemma_trim_end_len(s.drop_last(), f);
        assert(false);
    }
}

/// The index after the white space at the start of `s[from..to]`.
fn skip_white(s: &Vec<char>, from: usize, to: usize) -> (r: usize)
    requires
        from <= to <= s.len(),
    ensures
        from <= r <= to,
        s@.subrange(r as int, to as int) == trim_start_by(
            s@.subrange(from as int, to as int),
            |c: char| is_white(c),
        ),
{
    let ghost f = |c: char| is_white(c);
    let mut i: usize = from;
    while i < to && white(s[i])
        invariant
            from <= i <= to <= s.len(),
            f == (|c: char| is_white(c)),
            trim_start_by(s@.subrange(i as int, to as int), f) == trim_start_by(
                s@.subrange(from as int, to as int),
                f,
            ),
        decreases to - i,
    {
        proof {
            let cur = s@.subrange(i as int, to as int);
            assert(cur[0] == s@[i as int]);
            assert(f(cur[0]));
            assert(cur.drop_first() =~= s@.subrange(i + 1, to as int));
        }
        i = i + 1;
    }
    proof {
        let cur = s@.subrange(i as int, to as int);
        if i < to {
            assert(cur[0] == s@[i as int]);
            assert(!f(cur[0]));
        }
        assert(trim_start_by(cur, f) == cur);
    }
    i
}

/// The index before the white space at the end of `s[from..to]`.
fn cut_white(s: &Vec<char>, from: usize, to: usize) -> (r: usize)
    requires
        from <= to <= s.len(),
    ensures
        from <= r <= to,
        s@.subrange(from as int, r as int) == trim_end_by(
            s@.subrange(from as int, to as int),
            |c: char| is_white(c),
        ),
{
    let ghost f = |c: char| is_white(c);
    let mut i: usize = to;
    while i > from && white(s[i - 1])
        invariant
            from <= i <= to <= s.len(),
            f == (|c: char| is_white(c)),
            trim_end_by(s@.subrange(from as int, i as int), f) == trim_end_by(
                s@.subrange(from as int, to as int),
                f,
            ),
        decreases i,
    {
        proof {
            let cur = s@.subrange(from as int, i as int);
            assert(cur.last() == s@[i - 1]);
            assert(f(cur.last()));
            assert(cur.drop_last() =~= s@.subrange(from as int, i - 1));
        }
        i = i - 1;
    }
    proof {
        let cur = s@.subrange(from as int, i as int);
        if i > from {
            assert(cur.last() == s@[i - 1]);
            assert(!f(cur.last()));
        }
        assert(trim_end_by(cur, f) == cur);
    }
    i
}

/// `s` without white space at its ends.
pub fn trim(s: &str) -> (r: String)
    ensures
        r@ == trim_text(s@),
{
    let sc = chars_of(s);
    let from = skip_white(&sc, 0, sc.len());
    let to = cut_white(&sc, from, sc.len());
    proof {
        assert(sc@.subrange(0, sc@.len() as int) =~= s@);
    }
    string_of(&sc, from, to)
}

/// `s` without the character `q` at its ends.
pub fn trim_char(s: &str, q: char) -> (r: String)
    ensures
        r@ == trim_end_by(trim_start_by(s@, |c: char| c == q), |c: char| c == q),
{
    let sc = chars_of(s);
    let ghost f = |c: char| c == q;
    let n: usize = sc.len();
    let mut from: usize = 0;
    proof {
        assert(sc@.subrange(0, n as int) =~= s@);
    }
    while from < n && sc[from] == q
        invariant
            from <= n,
            n == sc.len(),
            f == (|c: char| c == q),
            trim_start_by(sc@.subrange(from as int, n as int), f) == trim_start_by(s@, f),
        decreases n - from,
    {
        proof {
            let cur = sc@.subrange(from as int, n as int);
            assert(cur[0] == sc@[from as int]);
            assert(f(cur[0]));
            assert(cur.drop_first() =~= sc@.subrange(from + 1, n as int));
        }
        from = from + 1;
    }
    let ghost mid = sc@.subrange(from as int, n as int);
    proof {
        if from < n {
            assert(mid[0] == sc@[from as int]);
            assert(!f(mid[0]));
        }
        assert(trim_start_by(mid, f) == mid);
    }
    let mut to: usize = n;
    while to > from && sc[to - 1] == q
        invariant
            from <= to <= n,
            n == sc.len(),
            f == (|c: char| c == q),
            trim_end_by(sc@.subrange(from as int, to as int), f) == trim_end_by(mid, f),
        decreases to,
    {
        proof {
            let cur = sc@.subrange(from as int, to as int);
            assert(cur.last() == sc@[to - 1]);
            assert(f(cur.last()));
            assert(cur.drop_last() =~= sc@.subrange(from as int, to - 1));
        }
        to = to - 1;
    }
    proof {
        let cur = sc@.subrange(from as int, to as int);
        if to > from {
            assert(cur.last() == sc@[to - 1]);
            assert(!f(cur.last()));
        }
        assert(trim_end_by(cur, f) == cur);
    }
    string_of(&sc, from, to)
}

// -------------------------------------------------------------------- splits

/// The index of the first `c` in `s`, or the length of `s`.
pub open spec fn index_of_char(s: Seq<char>, c: char) -> int
    decreases s.len(),
{
    if s.len() == 0 || s[0] == c {
        0
    } else {
        1 + index_of_char(s.drop_first(), c)
    }
}

/// The index lies in the text, and stands before its first `c`.
pub proof fn lemma_index_of_char(s: Seq<char>, c: char)
    ensures
        0 <= index_of_char(s, c) <= s.len(),
        index_of_char(s, c) < s.len() ==> s[index_of_char(s, c)] == c,
        forall|j: int| 0 <= j < index_of_char(s, c) ==> s[j] != c,
    decreases s.len(),
{
    if s.len() > 0 && s[0] != c {
        lemma_index_of_char(s.drop_first(), c);
        let k = index_of_char(s.drop_first(), c);
        assert forall|j: int| 0 <= j < 1 + k implies s[j] != c by {
            if j > 0 {
                assert(s.drop_first()[j - 1] == s[j]);
            }
        }
    }
}

/// The index is fixed by what it says.
pub proof fn lemma_index_of_char_is(s: Seq<char>, c: char, i: int)
    requires
        0 <= i <= s.len(),
        i < s.len() ==> s[i] == c,
        forall|j: int| 0 <= j < i ==> s[j] != c,
    ensures
        index_of_char(s, c) == i,
{
    lemma_index_of_char(s, c);
    let k = index_of_char(s, c);
    if k < i {
        assert(s[k] != c);
    }
    if i < k {
        assert(s[i] != c);
    }
}

/// The pieces of `s` between its `sep` characters.
pub open spec fn split_text(s: Seq<char>, sep: char) -> Seq<Seq<char>>
    decreases s.len(),
{
    let i = index_of_char(s, sep);
    if i < 0 || i >= s.len() {
        seq![s]
    } else {
        seq![s.take(i)] + split_text(s.skip(i + 1), sep)
    }
}

/// The pieces of `s` between its `sep` characters.
pub fn split(s: &str, sep: char) -> (r: Vec<String>)
    ensures
        texts(r@) == split_text(s@, sep),
        r.len() > 0,
{
    let sc = chars_of(s);
    let mut out: Vec<String> = Vec::new();
    let mut from: usize = 0;
    let mut i: usize = 0;
    proof {
        assert(sc@.skip(0) =~= sc@);
        assert(texts(out@) + split_text(sc@.skip(0), sep) =~= split_text(sc@, sep));
    }
    while i < sc.len()
        invariant
            from <= i <= sc.len(),
            texts(out@) + split_text(sc@.skip(from as int), sep) == split_text(sc@, sep),
            forall|j: int| from <= j < i ==> sc@[j] != sep,
        decreases sc.len() - i,
    {
        if sc[i] == sep {
            let piece = string_of(&sc, from, i);
            proof {
                let rest = sc@.skip(from as int);
                assert forall|j: int| 0 <= j < i - from implies rest[j] != sep by {
                    assert(rest[j] == sc@[from + j]);
                }
                lemma_index_of_char_is(rest, sep, i - from);
                assert(rest.take(i - from) =~= piece@);
                assert(rest.skip(i - from + 1) =~= sc@.skip(i + 1));
                assert(texts(out@.push(piece)) =~= texts(out@).push(piece@));
                assert(texts(out@) + (seq![piece@] + split_text(sc@.skip(i + 1), sep)) =~= texts(
                    out@.push(piece),
                ) + split_text(sc@.skip(i + 1), sep));
            }
            out.push(piece);
            from = i + 1;
        }
        i = i + 1;
    }
    let piece = string_of(&sc, from, sc.len());
    proof {
        let rest = sc@.skip(from as int);
        assert forall|j: int| 0 <= j < rest.len() implies rest[j] != sep by {
            assert(rest[j] == sc@[from + j]);
        }
        lemma_index_of_char_is(rest, sep, rest.len() as int);
        assert(rest =~= piece@);
        assert(texts(out@.push(piece)) =~= texts(out@) + seq![piece@]);
    }
    out.push(piece);
    out
}

/// `line` without a carriage return at its end.
pub open spec fn strip_return(line: Seq<char>) -> Seq<char> {
    if line.len() > 0 && line.last() == '\r' {
        line.drop_last()
    } else {
        line
    }
}

/// The lines of `s`: each ends at a line feed, with a carriage return before
/// it left out, or at the end of the text.
pub open spec fn lines_text(s: Seq<char>) -> Seq<Seq<char>>
    decreases s.len(),
{
    let i = index_of_char(s, '\n');
    if s.len() == 0 {
        Seq::empty()
    } else if i < 0 || i >= s.len() {
        seq![s]
    } else {
        seq![strip_return(s.take(i))] + lines_text(s.skip(i + 1))
    }
}

/// The lines of `s`.
pub fn lines(s: &str) -> (r: Vec<String>)
    ensures
        texts(r@) == lines_text(s@),
{
    let sc = chars_of(s);
    let mut out: Vec<String> = Vec::new();
    let mut from: usize = 0;
    let mut i: usize = 0;
    proof {
        assert(sc@.skip(0) =~= sc@);
        assert(texts(out@) + lines_text(sc@.skip(0)) =~= lines_text(sc@));
    }
    while i < sc.len()
        invariant
            from <= i <= sc.len(),
            texts(out@) + lines_text(sc@.skip(from as int)) == lines_text(sc@),
            forall|j: int| from <= j < i ==> sc@[j] != '\n',
        decreases sc.len() - i,
    {
        if sc[i] == '\n' {
            let end: usize = if i > from && sc[i - 1] == '\r' {
                i - 1
            } else {
                i
            };
            let piece = string_of(&sc, from, end);
            proof {
                let rest = sc@.skip(from as int);
                assert forall|j: int| 0 <= j < i - from implies rest[j] != '\n' by {
                    assert(rest[j] == sc@[from + j]);
                }
                lemma_index_of_char_is(rest, '\n', i - from);
                let line = rest.take(i - from);
                if i > from {
                    assert(line.last() == sc@[i - 1]);
                }
                assert(strip_return(line) =~= piece@);
                assert(rest.skip(i - from + 1) =~= sc@.skip(i + 1));
                assert(texts(out@.push(piece)) =~= texts(out@).push(piece@));
                assert(texts(out@) + (seq![piece@] + lines_text(sc@.skip(i + 1))) =~= texts(
                    out@.push(piece),
                ) + lines_text(sc@.skip(i + 1)));
            }
            out.push(piece);
            from = i + 1;
        }
        i = i + 1;
    }
    proof {
        let rest = sc@.skip(from as int);
        assert forall|j: int| 0 <= j < rest.len() implies rest[j] != '\n' by {
            assert(rest[j] == sc@[from + j]);
        }
        lemma_index_of_char_is(rest, '\n', rest.len() as int);
    }
    if from < sc.len() {
        let piece = string_of(&sc, from, sc.len());
        proof {
            assert(sc@.skip(from as int) =~= piece@);
            assert(texts(out@.push(piece)) =~= texts(out@) + seq![piece@]);
        }
        out.push(piece);
    } else {
        proof {
            assert(texts(out@) + lines_text(sc@.skip(from as int)) =~= texts(out@));
        }
    }
    out
}

/// The number of characters before the first white space in `s`.
pub open spec fn word_len(s: Seq<char>) -> int
    decreases s.len(),
{
    if s.len() == 0 || is_white(s[0]) {
        0
    } else {
        1 + word_len(s.drop_first())
    }
}

/// `word_len` counts characters of `s` that are not white space.
pub proof fn lemma_word_len(s: Seq<char>)
    ensures
        0 <= word_len(s) <= s.len(),
        word_len(s) < s.len() ==> is_white(s[word_len(s)]),
        forall|j: int| 0 <= j < word_len(s) ==> !is_white(#[trigger] s[j]),
        s.len() > 0 && !is_white(s[0]) ==> word_len(s) > 0,
    decreases s.len(),
{
    if s.len() > 0 && !is_white(s[0]) {
        lemma_word_len(s.drop_first());
        let k = word_len(s.drop_first());
        assert forall|j: int| 0 <= j < 1 + k implies !is_white(#[trigger] s[j]) by {
            if j > 0 {
                assert(s.drop_first()[j - 1] == s[j]);
            }
        }
    }
}

/// `word_len` is fixed by what it says.
pub proof fn lemma_word_len_is(s: Seq<char>, i: int)
    requires
        0 <= i <= s.len(),
        i < s.len() ==> is_white(s[i]),
        forall|j: int| 0 <= j < i ==> !is_white(#[trigger] s[j]),
    ensures
        word_len(s) == i,
{
    lemma_word_len(s);
    let k = word_len(s);
    if k < i {
        assert(!is_white(s[k]));
    }
    if i < k {
        assert(!is_white(s[i]));
    }
}

/// The pieces of `s` between runs of white space.
pub open spec fn words_text(s: Seq<char>) -> Seq<Seq<char>>
    decreases s.len(),
{
    if s.len() == 0 {
        Seq::empty()
    } else if is_white(s[0]) {
        words_text(s.drop_first())
    } else {
        let i = word_len(s);
        if i <= 0 || i > s.len() {
            Seq::empty()
        } else {
            seq![s.take(i)] + words_text(s.skip(i))
        }
    }
}

/// White space after a word parts it from the words that follow.
pub proof fn lemma_words_split(a: Seq<char>, c: char, rest: Seq<char>)
    requires
        a.len() > 0,
        forall|i: int| 0 <= i < a.len() ==> !is_white(#[trigger] a[i]),
        is_white(c),
    ensures
        words_text(a + seq![c] + rest) == seq![a] + words_text(rest),
{
    let s = a + seq![c] + rest;
    let n = a.len() as int;
    assert forall|j: int| 0 <= j < n implies !is_white(#[trigger] s[j]) by {
        assert(s[j] == a[j]);
    }
    assert(!is_white(s[0]));
    assert(s[n] == c);
    lemma_word_len_is(s, n);
    assert(s.take(n) =~= a);
    let t = s.skip(n);
    assert(t[0] == c);
    assert(t.drop_first() =~= rest);
    assert(words_text(t) == words_text(rest));
}

/// The pieces of `s` between runs of white space.
pub fn words(s: &str) -> (r: Vec<String>)
    ensures
        texts(r@) == words_text(s@),
{
    let sc = chars_of(s);
    let mut out: Vec<String> = Vec::new();
    let mut i: usize = 0;
    proof {
        assert(sc@.skip(0) =~= sc@);
        assert(texts(out@) + words_text(sc@.skip(0)) =~= words_text(sc@));
    }
    while i < sc.len()
        invariant
            i <= sc.len(),
            texts(out@) + words_text(sc@.skip(i as int)) == words_text(sc@),
        decreases sc.len() - i,
    {
        let ghost rest = sc@.skip(i as int);
        proof {
            assert(rest[0] == sc@[i as int]);
        }
        if white(sc[i]) {
            proof {
                assert(rest.drop_first() =~= sc@.skip(i + 1));
            }
            i = i + 1;
        } else {
            let from = i;
            while i < sc.len() && !white(sc[i])
                invariant
                    from <= i <= sc.len(),
                    forall|j: int| from <= j < i ==> !is_white(#[trigger] sc@[j]),
                decreases sc.len() - i,
            {
                i = i + 1;
            }
            let piece = string_of(&sc, from, i);
            proof {
                assert(rest == sc@.skip(from as int));
                assert forall|j: int| 0 <= j < i - from implies !is_white(#[trigger] rest[j]) by {
                    assert(rest[j] == sc@[from + j]);
                }
                if i < sc.len() {
                    assert(rest[i - from] == sc@[i as int]);
                }
                lemma_word_len_is(rest, i - from);
                lemma_word_len(rest);
                assert(rest.take(i - from) =~= piece@);
                assert(rest.skip(i - from) =~= sc@.skip(i as int));
                assert(texts(out@.push(piece)) =~= texts(out@).push(piece@));
                assert(texts(out@) + (seq![piece@] + words_text(sc@.skip(i as int))) =~= texts(
                    out@.push(piece),
                ) + words_text(sc@.skip(i as int)));
            }
            out.push(piece);
        }
    }
    proof {
        assert(texts(out@) + words_text(sc@.skip(i as int)) =~= texts(out@));
    }
    out
}

// ------------------------------------------------------------------- numbers

/// The character of a decimal digit.
pub open spec fn digit_char(d: int) -> char {
    (48 + d) as char
}

/// An ASCII digit.
pub open spec fn is_digit(c: char) -> bool {
    '0' <= c <= '9'
}

/// Whether `c` is an ASCII digit.
pub fn digit(c: char) -> (r: bool)
    ensures
        r == is_digit(c),
{
    '0' <= c && c <= '9'
}

/// Every character of `s` is an ASCII digit.
pub open spec fn all_digits(s: Seq<char>) -> bool {
    forall|i: int| 0 <= i < s.len() ==> is_digit(#[trigger] s[i])
}

/// `n` in decimal, without leading zeros.
pub open spec fn decimal_text(n: nat) -> Seq<char>
    decreases n,
{
    if n < 10 {
        seq![digit_char(n as int)]
    } else {
        decimal_text(n / 10).push(digit_char((n % 10) as int))
    }
}

/// The number that decimal digits write.
pub open spec fn digits_value(s: Seq<char>) -> nat
    decreases s.len(),
{
    if s.len() == 0 {
        0
    } else {
        (digits_value(s.drop_last()) * 10 + (s.last() as int - 48)) as nat
    }
}

/// The number that `s` writes in decimal with an optional plus sign, where
/// it is at most `max`.
pub open spec fn number_in(s: Seq<char>, max: nat) -> Option<nat> {
    let body = if s.len() > 0 && s[0] == '+' {
        s.drop_first()
    } else {
        s
    };
    if body.len() > 0 && all_digits(body) && digits_value(body) <= max {
        Some(digits_value(body))
    } else {
        None
    }
}

/// A decimal text holds digits only, at least one of them, and writes its
/// number.
pub proof fn lemma_decimal_value(n: nat)
    ensures
        decimal_text(n).len() > 0,
        all_digits(decimal_text(n)),
        digits_value(decimal_text(n)) == n,
    decreases n,
{
    if n < 10 {
        let s = decimal_text(n);
        assert(s.drop_last() =~= Seq::<char>::empty());
        assert(digits_value(Seq::<char>::empty()) == 0);
        assert(s.last() as int - 48 == n);
    } else {
        lemma_decimal_value(n / 10);
        let s = decimal_text(n);
        assert(s.drop_last() =~= decimal_text(n / 10));
        assert(s.last() as int - 48 == n % 10);
        assert forall|i: int| 0 <= i < s.len() implies is_digit(#[trigger] s[i]) by {
            if i < s.len() - 1 {
                assert(s[i] == decimal_text(n / 10)[i]);
            }
        }
    }
}

/// Reading a number back from its decimal text gives the number.
pub proof fn lemma_number_of_decimal(n: nat, max: nat)
    requires
        n <= max,
    ensures
        number_in(decimal_text(n), max) == Some(n),
{
    lemma_decimal_value(n);
    assert(is_digit(decimal_text(n)[0]));
}

/// A prefix of digits writes no more than the whole.
proof fn lemma_digits_prefix(s: Seq<char>, i: int)
    requires
        0 <= i <= s.len(),
        all_digits(s),
    ensures
        digits_value(s.take(i)) <= digits_value(s),
    decreases s.len() - i,
{
    if i < s.len() {
        lemma_digits_prefix(s, i + 1);
        let t = s.take(i + 1);
        assert(t.drop_last() =~= s.take(i));
        assert(t.last() == s[i]);
        assert(is_digit(s[i]));
        assert(digits_value(t) >= digits_value(s.take(i)) * 10);
    } else {
        assert(s.take(i) =~= s);
    }
}

/// `n` in decimal.
pub fn decimal(n: u64) -> (r: String)
    ensures
        r@ == decimal_text(n as nat),
    decreases n,
{
    let c: char = ((48 + (n % 10)) as u8) as char;
    if n < 10 {
        let mut out = String::new();
        out.push(c);
        proof {
            assert(out@ =~= decimal_text(n as nat));
        }
        out
    } else {
        let mut out = decimal(n / 10);
        out.push(c);
        out
    }
}

/// The number that `s` writes in decimal, where it is at most `max`.
pub fn parse_number(s: &str, max: u64) -> (r: Option<u64>)
    ensures
        match r {
            Some(n) => number_in(s@, max as nat) == Some(n as nat) && n <= max,
            None => number_in(s@, max as nat) is None,
        },
{
    let sc = chars_of(s);
    let start: usize = if sc.len() > 0 && sc[0] == '+' {
        1
    } else {
        0
    };
    let ghost body = if s@.len() > 0 && s@[0] == '+' {
        s@.drop_first()
    } else {
        s@
    };
    proof {
        assert(body =~= sc@.skip(start as int));
        assert(body.take(0) =~= Seq::<char>::empty());
    }
    if start == sc.len() {
        return None;
    }
    let mut value: u64 = 0;
    let mut i: usize = start;
    while i < sc.len()
        invariant
            start <= i <= sc.len(),
            body == sc@.skip(start as int),
            forall|j: int| 0 <= j < i - start ==> is_digit(#[trigger] body[j]),
            value == digits_value(body.take(i - start)),
            value <= max,
            s@ == sc@,
            start == (if s@.len() > 0 && s@[0] == '+' { 1int } else { 0int }),
            body == (if s@.len() > 0 && s@[0] == '+' { s@.drop_first() } else { s@ }),
        decreases sc.len() - i,
    {
        let c = sc[i];
        proof {
            assert(body[i - start] == c);
        }
        if !digit(c) {
            return None;
        }
        let d: u64 = (c as u8 - 48) as u64;
        let ghost next = body.take(i - start + 1);
        proof {
            assert(next.drop_last() =~= body.take(i - start));
            assert(next.last() == c);
            assert(digits_value(next) == value * 10 + d);
            if all_digits(body) {
                lemma_digits_prefix(body, i - start + 1);
            }
        }
        if value > max / 10 || d > max || value * 10 > max - d {
            return None;
        }
        value = value * 10 + d;
        i = i + 1;
    }
    proof {
        assert(body.take(body.len() as int) =~= body);
    }
    Some(value)
}

/// `n` in decimal, with a minus sign where it is negative.
pub open spec fn signed_text(n: int) -> Seq<char> {
    if n < 0 {
        "-"@ + decimal_text((-n) as nat)
    } else {
        decimal_text(n as nat)
    }
}

/// `n` in decimal, with a minus sign where it is negative.
pub fn signed(n: i32) -> (r: String)
    ensures
        r@ == signed_text(n as int),
{
    let wide: i64 = n as i64;
    if wide < 0 {
        cat2("-", decimal((-wide) as u64).as_str())
    } else {
        decimal(wide as u64)
    }
}

/// A text as it is written for a reader of code: in quotes, with what would not
/// show as itself escaped.
pub uninterp spec fn quoted(s: Seq<char>) -> Seq<char>;

/// Quotes a text with the `Debug` of `str`.
#[verifier::external_body]
pub(crate) fn quote(s: &str) -> (r: String)
    ensures
        r@ == quoted(s@),
{
    format!("{:?}", s)
}

// ---------------------------------------------------------------------- laws

/// A text holds another exactly where it is made of something, the other, and
/// something; it begins or ends with it where there is nothing before or after.
pub proof fn law_texts_hold_their_parts(a: Seq<char>, pat: Seq<char>, b: Seq<char>, s: Seq<char>)
    ensures
        has(a + pat + b, pat),
        begins(pat + b, pat),
        ends(a + pat, pat),
        has(s, pat) ==> exists|x: Seq<char>, y: Seq<char>| s == #[trigger] (x + pat + y),
        begins(s, pat) ==> exists|y: Seq<char>| s == #[trigger] (pat + y),
        ends(s, pat) ==> exists|x: Seq<char>| s == #[trigger] (x + pat),
{
    let n = a.len() as int;
    assert((a + pat + b).subrange(n, n + pat.len()) =~= pat);
    assert(occurs_at(a + pat + b, pat, n));
    assert((pat + b).subrange(0, pat.len() as int) =~= pat);
    assert((a + pat).subrange(n, n + pat.len()) =~= pat);
    if has(s, pat) {
        let i = choose|i: int| occurs_at(s, pat, i);
        let x = s.take(i);
        let y = s.skip(i + pat.len());
        assert(s =~= x + s.subrange(i, i + pat.len()) + y);
        assert(s == x + pat + y);
    }
    if begins(s, pat) {
        let y = s.skip(pat.len() as int);
        assert(s =~= s.subrange(0, pat.len() as int) + y);
        assert(s == pat + y);
    }
    if ends(s, pat) {
        let i = s.len() - pat.len();
        let x = s.take(i);
        assert(s =~= x + s.subrange(i, i + pat.len()));
        assert(s == x + pat);
    }
}

/// Putting the pieces together again with the separator between them gives the
/// text, and no piece holds the separator.
pub proof fn law_pieces_make_up_the_text(s: Seq<char>, sep: char)
    ensures
        join_text(split_text(s, sep), seq![sep]) == s,
        split_text(s, sep).len() > 0,
        forall|k: int, i: int|
            0 <= k < split_text(s, sep).len() && 0 <= i < split_text(s, sep)[k].len() ==> (
            #[trigger] split_text(s, sep)[k][i]) != sep,
    decreases s.len(),
{
    let i = index_of_char(s, sep);
    lemma_index_of_char(s, sep);
    if i >= s.len() {
        assert(split_text(s, sep) == seq![s]);
        assert(join_text(seq![s], seq![sep]) == s);
        assert forall|k: int, j: int|
            0 <= k < split_text(s, sep).len() && 0 <= j < split_text(s, sep)[k].len() implies (
        #[trigger] split_text(s, sep)[k][j]) != sep by {
            assert(split_text(s, sep)[k] == s);
            if s[j] == sep {
                lemma_index_before(s, sep, j);
            }
        }
    } else {
        let head = s.take(i);
        let rest = s.skip(i + 1);
        law_pieces_make_up_the_text(rest, sep);
        let more = split_text(rest, sep);
        lemma_join_front(head, more, seq![sep]);
        assert(s =~= head + seq![sep] + rest);
        assert forall|k: int, j: int|
            0 <= k < split_text(s, sep).len() && 0 <= j < split_text(s, sep)[k].len() implies (
        #[trigger] split_text(s, sep)[k][j]) != sep by {
            if k == 0 {
                assert(split_text(s, sep)[k] == head);
                if s[j] == sep {
                    lemma_index_before(s, sep, j);
                }
            } else {
                assert(split_text(s, sep)[k] == more[k - 1]);
                assert(more[k - 1][j] != sep);
            }
        }
    }
}

proof fn lemma_index_before(s: Seq<char>, c: char, j: int)
    requires
        0 <= j < s.len(),
        s[j] == c,
    ensures
        index_of_char(s, c) <= j,
    decreases s.len(),
{
    if s[0] != c {
        lemma_index_before(s.drop_first(), c, j - 1);
    }
}

proof fn lemma_join_front(a: Seq<char>, rest: Seq<Seq<char>>, sep: Seq<char>)
    requires
        rest.len() > 0,
    ensures
        join_text(seq![a] + rest, sep) == a + sep + join_text(rest, sep),
    decreases rest.len(),
{
    let all = seq![a] + rest;
    if rest.len() == 1 {
        assert(all.drop_last() =~= seq![a]);
        assert(all.last() == rest[0]);
        assert(join_text(all.drop_last(), sep) == a);
    } else {
        lemma_join_front(a, rest.drop_last(), sep);
        assert(all.drop_last() =~= seq![a] + rest.drop_last());
        assert(all.last() == rest.last());
        assert(join_text(all, sep) =~= a + sep + join_text(rest, sep));
    }
}

/// A line feed ends a line: what comes before it, without a carriage return at
/// its end, is the first line, and the lines after it follow. No line holds a
/// line feed.
pub proof fn law_line_feeds_end_lines(first: Seq<char>, rest: Seq<char>, s: Seq<char>)
    requires
        forall|i: int| 0 <= i < first.len() ==> (#[trigger] first[i]) != '\n',
    ensures
        lines_text(first + seq!['\n'] + rest) == seq![
            if first.len() > 0 && first.last() == '\r' {
                first.drop_last()
            } else {
                first
            },
        ] + lines_text(rest),
        first.len() > 0 ==> lines_text(first) == seq![first],
        lines_text(Seq::<char>::empty()).len() == 0,
        forall|k: int, i: int|
            0 <= k < lines_text(s).len() && 0 <= i < lines_text(s)[k].len() ==> (
            #[trigger] lines_text(s)[k][i]) != '\n',
{
    let whole = first + seq!['\n'] + rest;
    let n = first.len() as int;
    assert forall|j: int| 0 <= j < n implies whole[j] != '\n' by {
        assert(whole[j] == first[j]);
    }
    assert(whole[n] == '\n');
    lemma_index_of_char_is(whole, '\n', n);
    assert(whole.take(n) =~= first);
    assert(whole.skip(n + 1) =~= rest);
    lemma_index_of_char_is(first, '\n', n);
    lemma_lines_hold_no_feed(s);
}

proof fn lemma_lines_hold_no_feed(s: Seq<char>)
    ensures
        forall|k: int, i: int|
            0 <= k < lines_text(s).len() && 0 <= i < lines_text(s)[k].len() ==> (
            #[trigger] lines_text(s)[k][i]) != '\n',
    decreases s.len(),
{
    let i = index_of_char(s, '\n');
    lemma_index_of_char(s, '\n');
    if s.len() > 0 {
        let head = if i >= s.len() {
            s
        } else {
            strip_return(s.take(i))
        };
        assert forall|j: int| 0 <= j < head.len() implies head[j] != '\n' by {
            assert(head[j] == s[j]);
            if s[j] == '\n' {
                lemma_index_before(s, '\n', j);
            }
        }
        if i < s.len() {
            let more = lines_text(s.skip(i + 1));
            lemma_lines_hold_no_feed(s.skip(i + 1));
            assert forall|k: int, j: int|
                0 <= k < lines_text(s).len() && 0 <= j < lines_text(s)[k].len() implies (
            #[trigger] lines_text(s)[k][j]) != '\n' by {
                if k == 0 {
                    assert(lines_text(s)[k] == head);
                } else {
                    assert(lines_text(s)[k] == more[k - 1]);
                    assert(more[k - 1][j] != '\n');
                }
            }
        } else {
            assert forall|k: int, j: int|
                0 <= k < lines_text(s).len() && 0 <= j < lines_text(s)[k].len() implies (
            #[trigger] lines_text(s)[k][j]) != '\n' by {
                assert(lines_text(s)[k] == head);
            }
        }
    }
}

/// Words that are put together with white space between them are read apart
/// again.
pub proof fn law_words_are_read_apart(words: Seq<Seq<char>>, gap: char)
    requires
        is_white(gap),
        forall|k: int| 0 <= k < words.len() ==> (#[trigger] words[k]).len() > 0,
        forall|k: int, i: int|
            0 <= k < words.len() && 0 <= i < words[k].len() ==> !is_white(#[trigger] words[k][i]),
    ensures
        words_text(join_text(words, seq![gap])) == words,
    decreases words.len(),
{
    if words.len() == 0 {
        assert(words_text(join_text(words, seq![gap])) =~= words);
    } else {
        let a = words[0];
        let rest = words.drop_first();
        assert(words =~= seq![a] + rest);
        assert forall|i: int| 0 <= i < a.len() implies !is_white(#[trigger] a[i]) by {
            assert(!is_white(words[0][i]));
        }
        if rest.len() == 0 {
            assert(join_text(words, seq![gap]) == a);
            lemma_word_len_is(a, a.len() as int);
            assert(!is_white(a[0]));
            assert(a.take(a.len() as int) =~= a);
            assert(words_text(a.skip(a.len() as int)) =~= Seq::<Seq<char>>::empty());
            assert(words_text(a) =~= words);
        } else {
            assert forall|k: int| 0 <= k < rest.len() implies (#[trigger] rest[k]).len() > 0 by {
                assert(rest[k] == words[k + 1]);
            }
            assert forall|k: int, i: int|
                0 <= k < rest.len() && 0 <= i < rest[k].len() implies !is_white(
                #[trigger] rest[k][i],
            ) by {
                assert(!is_white(words[k + 1][i]));
            }
            law_words_are_read_apart(rest, gap);
            lemma_join_front(a, rest, seq![gap]);
            lemma_words_split(a, gap, join_text(rest, seq![gap]));
        }
    }
}

/// Trimming takes white space off both ends and nothing else: what is left
/// neither begins nor ends with white space, and only white space was round it.
pub proof fn law_trimming_takes_white_space(s: Seq<char>)
    ensures
        trim_text(s).len() > 0 ==> !is_white(trim_text(s)[0]) && !is_white(trim_text(s).last()),
        exists|a: Seq<char>, b: Seq<char>|
            s == #[trigger] (a + trim_text(s) + b) && (forall|i: int|
                0 <= i < a.len() ==> is_white(#[trigger] a[i])) && (forall|i: int|
                0 <= i < b.len() ==> is_white(#[trigger] b[i])),
{
    let f = |c: char| is_white(c);
    let t = trim_start_by(s, f);
    let a = lemma_trimmed_start(s, f);
    let b = lemma_trimmed_end(t, f);
    let u = trim_end_by(t, f);
    assert(s =~= a + u + b);
    assert forall|i: int| 0 <= i < a.len() implies is_white(#[trigger] a[i]) by {
        assert(f(a[i]));
    }
    assert forall|i: int| 0 <= i < b.len() implies is_white(#[trigger] b[i]) by {
        assert(f(b[i]));
    }
    assert(trim_text(s) == u);
    if u.len() > 0 {
        assert(t[0] == u[0]);
        assert(!f(t[0]));
        assert(!f(u.last()));
    }
}

proof fn lemma_trimmed_start(s: Seq<char>, drop: spec_fn(char) -> bool) -> (a: Seq<char>)
    ensures
        s == a + trim_start_by(s, drop),
        forall|i: int| 0 <= i < a.len() ==> drop(#[trigger] a[i]),
        trim_start_by(s, drop).len() > 0 ==> !drop(trim_start_by(s, drop)[0]),
    decreases s.len(),
{
    if s.len() > 0 && drop(s[0]) {
        let rest = lemma_trimmed_start(s.drop_first(), drop);
        let a = seq![s[0]] + rest;
        assert(s =~= seq![s[0]] + s.drop_first());
        assert(s =~= seq![s[0]] + (rest + trim_start_by(s.drop_first(), drop)));
        assert(seq![s[0]] + (rest + trim_start_by(s, drop)) =~= a + trim_start_by(s, drop));
        assert forall|i: int| 0 <= i < a.len() implies drop(#[trigger] a[i]) by {
            if i > 0 {
                assert(a[i] == rest[i - 1]);
            }
        }
        a
    } else {
        assert(s =~= Seq::<char>::empty() + s);
        Seq::empty()
    }
}

proof fn lemma_trimmed_end(s: Seq<char>, drop: spec_fn(char) -> bool) -> (b: Seq<char>)
    ensures
        s == trim_end_by(s, drop) + b,
        forall|i: int| 0 <= i < b.len() ==> drop(#[trigger] b[i]),
        trim_end_by(s, drop).len() > 0 ==> !drop(trim_end_by(s, drop).last()),
        trim_end_by(s, drop).len() > 0 ==> trim_end_by(s, drop)[0] == s[0],
    decreases s.len(),
{
    if s.len() > 0 && drop(s.last()) {
        let rest = lemma_trimmed_end(s.drop_last(), drop);
        let b = rest.push(s.last());
        assert(s =~= s.drop_last().push(s.last()));
        assert(s =~= (trim_end_by(s.drop_last(), drop) + rest).push(s.last()));
        assert((trim_end_by(s, drop) + rest).push(s.last()) =~= trim_end_by(s, drop) + b);
        assert forall|i: int| 0 <= i < b.len() implies drop(#[trigger] b[i]) by {
            if i < rest.len() {
                assert(b[i] == rest[i]);
            }
        }
        b
    } else {
        assert(s =~= s + Seq::<char>::empty());
        Seq::empty()
    }
}

/// Making letters small changes capitals only, leaves none, and keeps every
/// other character in its place.
pub proof fn law_small_letters(s: Seq<char>, i: int)
    requires
        0 <= i < s.len(),
    ensures
        lower_text(s).len() == s.len(),
        !('A' <= lower_text(s)[i] <= 'Z'),
        !('A' <= s[i] <= 'Z') ==> lower_text(s)[i] == s[i],
        'A' <= s[i] <= 'Z' ==> lower_text(s)[i] as int == s[i] as int + 32,
        lower_text(lower_text(s)) == lower_text(s),
        swap_text(s, '\\', '/')[i] == (if s[i] == '\\' {
            '/'
        } else {
            s[i]
        }),
{
    assert(lower_text(lower_text(s)) =~= lower_text(s)) by {
        assert forall|j: int| 0 <= j < s.len() implies lower_text(lower_text(s))[j] == lower_text(
            s,
        )[j] by {
            let c = s[j];
            assert(lower_text(s)[j] == lower_char(c));
            if 'A' <= c <= 'Z' {
                assert(lower_char(c) as int == c as int + 32);
            }
        }
    }
    let c = s[i];
    if 'A' <= c <= 'Z' {
        assert(lower_char(c) as int == c as int + 32);
    }
}

/// Texts are ordered by the first character in which they differ; a text comes
/// before whatever it is the beginning of.
pub proof fn law_texts_are_ordered_by_characters(
    common: Seq<char>,
    a: char,
    b: char,
    x: Seq<char>,
    y: Seq<char>,
)
    requires
        a < b,
    ensures
        text_before(common + seq![a] + x, common + seq![b] + y),
        text_before(common, common + seq![a] + x),
    decreases common.len(),
{
    let p = common + seq![a] + x;
    let q = common + seq![b] + y;
    if common.len() > 0 {
        law_texts_are_ordered_by_characters(common.drop_first(), a, b, x, y);
        assert(p.drop_first() =~= common.drop_first() + seq![a] + x);
        assert(q.drop_first() =~= common.drop_first() + seq![b] + y);
        assert(p[0] == common[0] && q[0] == common[0]);
    } else {
        assert(p[0] == a && q[0] == b);
    }
}

/// Numbers that differ are written differently.
pub proof fn law_decimals_tell_numbers_apart(a: nat, b: nat)
    ensures
        decimal_text(a) == decimal_text(b) <==> a == b,
{
    lemma_decimal_value(a);
    lemma_decimal_value(b);
}

} // verus!
