use vstd::prelude::*;

verus! {

/// Whether two strings are equal.
pub fn str_equal(a: &str, b: &str) -> (r: bool)
    ensures
        r == (a@ == b@),
{
    a.to_owned() == b.to_owned()
}

/// Whether `c` has the Unicode `White_Space` property.
pub open spec fn is_white_space(c: char) -> bool {
    ||| '\u{9}' <= c <= '\u{d}'
    ||| c == ' '
    ||| c == '\u{85}'
    ||| c == '\u{a0}'
    ||| c == '\u{1680}'
    ||| '\u{2000}' <= c <= '\u{200a}'
    ||| c == '\u{2028}'
    ||| c == '\u{2029}'
    ||| c == '\u{202f}'
    ||| c == '\u{205f}'
    ||| c == '\u{3000}'
}

/// Whether `t` is `s` without its leading and trailing white space.
pub open spec fn is_trim_of(s: Seq<char>, t: Seq<char>) -> bool {
    exists|a: int, b: int| #[trigger] trim_bounds(s, t, a, b)
}

/// `t` is the part `a..b` of `s`, and `a`, `b` cut exactly the white space at the ends.
pub open spec fn trim_bounds(s: Seq<char>, t: Seq<char>, a: int, b: int) -> bool {
    &&& 0 <= a <= b <= s.len()
    &&& t == s.subrange(a, b)
    &&& forall|i: int| 0 <= i < a ==> is_white_space(#[trigger] s[i])
    &&& forall|i: int| b <= i < s.len() ==> is_white_space(#[trigger] s[i])
    &&& a < b ==> !is_white_space(s[a]) && !is_white_space(s[b - 1])
}

/// `str::trim`, which the standard library documents as removing leading and
/// trailing characters with the Unicode `White_Space` property.
#[verifier::external_body]
pub(crate) fn trim(s: &str) -> (r: &str)
    ensures
        is_trim_of(s@, r@),
{
    s.trim()
}

/// Whether a text holds nothing but white space.
pub open spec fn is_blank(text: Seq<char>) -> bool {
    forall|i: int| 0 <= i < text.len() ==> is_white_space(#[trigger] text[i])
}

/// Whether a shader source holds nothing but white space.
pub fn source_is_blank(text: &str) -> (r: bool)
    ensures
        r == is_blank(text@),
{
    let t = trim(text);
    let r = t.is_empty();
    proof {
        let (a, b) = choose|a: int, b: int| trim_bounds(text@, t@, a, b);
        if r {
            assert forall|i: int| 0 <= i < text@.len() implies is_white_space(#[trigger] text@[i]) by {
                if i < a {
                } else {
                    assert(b <= i);
                }
            }
        } else {
            assert(t@.len() > 0);
            assert(!is_white_space(text@[a]));
        }
    }
    r
}


/// `str::chars`, collected: the characters of a string in order.
#[verifier::external_body]
pub(crate) fn chars_of(s: &str) -> (r: Vec<char>)
    ensures
        r@ == s@,
{
    s.chars().collect()
}

/// `String::from_iter` over characters: the string of these characters.
#[verifier::external_body]
pub(crate) fn string_of(chars: &Vec<char>) -> (r: String)
    ensures
        r@ == chars@,
{
    chars.iter().collect()
}

/// Whether a character is an ASCII letter or digit.
pub open spec fn is_ascii_alphanumeric(c: char) -> bool {
    ('0' <= c <= '9') || ('a' <= c <= 'z') || ('A' <= c <= 'Z')
}

/// The character a file name keeps in place of `c`.
pub open spec fn filename_char(c: char) -> char {
    if is_ascii_alphanumeric(c) || c == '-' || c == '_' || c == '.' {
        c
    } else {
        '-'
    }
}

/// A file name for a label: ASCII letters, digits, `-`, `_` and `.` stay, every other
/// character becomes `-`.
pub fn sanitize_filename(value: &str) -> (r: String)
    ensures
        r@ == value@.map_values(|c: char| filename_char(c)),
{
    let chars = chars_of(value);
    let mut out: Vec<char> = Vec::new();
    let mut i: usize = 0;
    while i < chars.len()
        invariant
            i <= chars@.len(),
            chars@ == value@,
            out@ == chars@.take(i as int).map_values(|c: char| filename_char(c)),
        decreases chars@.len() - i,
    {
        let c = chars[i];
        let keep = ('0' <= c && c <= '9') || ('a' <= c && c <= 'z') || ('A' <= c && c <= 'Z') || c == '-' || c
            == '_' || c == '.';
        out.push(if keep { c } else { '-' });
        assert(out@ =~= chars@.take(i + 1).map_values(|c: char| filename_char(c)));
        i = i + 1;
    }
    assert(chars@.take(i as int) =~= chars@);
    string_of(&out)
}

/// A path with every backslash turned into a slash.
pub open spec fn normalized_path(path: Seq<char>) -> Seq<char> {
    path.map_values(|c: char| if c == '\\' { '/' } else { c })
}

/// A relative path with every backslash turned into a slash.
pub fn normalize_relative_path(path: &str) -> (r: String)
    ensures
        r@ == normalized_path(path@),
{
    let chars = chars_of(path);
    let mut out: Vec<char> = Vec::new();
    let mut i: usize = 0;
    while i < chars.len()
        invariant
            i <= chars@.len(),
            chars@ == path@,
            out@ == chars@.take(i as int).map_values(|c: char| if c == '\\' { '/' } else { c }),
        decreases chars@.len() - i,
    {
        let c = chars[i];
        out.push(if c == '\\' { '/' } else { c });
        assert(out@ =~= chars@.take(i + 1).map_values(|c: char| if c == '\\' { '/' } else { c }));
        i = i + 1;
    }
    assert(chars@.take(i as int) =~= chars@);
    string_of(&out)
}

/// Whether `a` comes before `b` in lexicographic order of their characters, which is
/// the order of `String`s.
pub open spec fn text_less(a: Seq<char>, b: Seq<char>) -> bool
    decreases a.len(),
{
    if b.len() == 0 {
        false
    } else if a.len() == 0 {
        true
    } else if a[0] != b[0] {
        a[0] < b[0]
    } else {
        text_less(a.drop_first(), b.drop_first())
    }
}

proof fn lemma_text_less_step(a: Seq<char>, b: Seq<char>, i: int)
    requires
        0 <= i <= a.len(),
        i <= b.len(),
        a.take(i) == b.take(i),
    ensures
        text_less(a, b) == text_less(a.skip(i), b.skip(i)),
    decreases i,
{
    if i > 0 {
        assert(a[0] == a.take(i)[0]);
        assert(b[0] == b.take(i)[0]);
        assert(a.drop_first().take(i - 1) =~= a.take(i).drop_first());
        assert(b.drop_first().take(i - 1) =~= b.take(i).drop_first());
        lemma_text_less_step(a.drop_first(), b.drop_first(), i - 1);
        assert(a.drop_first().skip(i - 1) =~= a.skip(i));
        assert(b.drop_first().skip(i - 1) =~= b.skip(i));
    } else {
        assert(a.skip(0) =~= a);
        assert(b.skip(0) =~= b);
    }
}

/// Whether `a` sorts before `b`.
pub fn text_before(a: &str, b: &str) -> (r: bool)
    ensures
        r == text_less(a@, b@),
{
    let x = chars_of(a);
    let y = chars_of(b);
    let mut i: usize = 0;
    while i < x.len() && i < y.len() && x[i] == y[i]
        invariant
            i <= x@.len(),
            i <= y@.len(),
            x@ == a@,
            y@ == b@,
            x@.take(i as int) == y@.take(i as int),
        decreases x@.len() - i,
    {
        assert(x@.take(i + 1) =~= x@.take(i as int).push(x@[i as int]));
        assert(y@.take(i + 1) =~= y@.take(i as int).push(y@[i as int]));
        i = i + 1;
    }
    proof {
        lemma_text_less_step(x@, y@, i as int);
    }
    if i == y.len() {
        false
    } else if i == x.len() {
        true
    } else {
        x[i] < y[i]
    }
}

/// No text comes before itself.
pub proof fn lemma_text_less_irreflexive(a: Seq<char>)
    ensures
        !text_less(a, a),
    decreases a.len(),
{
    if a.len() > 0 {
        lemma_text_less_irreflexive(a.drop_first());
    }
}

/// Of two different texts, one comes before the other, and not both ways.
pub proof fn lemma_text_less_total(a: Seq<char>, b: Seq<char>)
    ensures
        a != b ==> (text_less(a, b) || text_less(b, a)),
        !(text_less(a, b) && text_less(b, a)),
    decreases a.len(),
{
    if a.len() > 0 && b.len() > 0 && a[0] == b[0] {
        lemma_text_less_total(a.drop_first(), b.drop_first());
        if a != b {
            assert(a =~= seq![a[0]] + a.drop_first());
            assert(b =~= seq![b[0]] + b.drop_first());
        }
    } else if a.len() > 0 && b.len() > 0 {
        assert(a[0] != b[0]);
    } else if a.len() == 0 && b.len() == 0 {
        assert(a =~= b);
    }
}

/// Coming before is transitive.
pub proof fn lemma_text_less_transitive(a: Seq<char>, b: Seq<char>, c: Seq<char>)
    requires
        text_less(a, b),
        text_less(b, c),
    ensures
        text_less(a, c),
    decreases a.len(),
{
    if a.len() > 0 && b.len() > 0 && c.len() > 0 && a[0] == b[0] && b[0] == c[0] {
        lemma_text_less_transitive(a.drop_first(), b.drop_first(), c.drop_first());
    }
}

/// Whether the texts are in strictly increasing order.
pub open spec fn strictly_sorted(v: Seq<String>) -> bool {
    forall|i: int, j: int| 0 <= i < j < v.len() ==> text_less(v[i]@, v[j]@)
}

/// Whether some text of `v` reads `x`.
pub open spec fn holds_text(v: Seq<String>, x: Seq<char>) -> bool {
    exists|i: int| 0 <= i < v.len() && #[trigger] v[i]@ == x
}

/// The texts sorted, each once.
pub fn sorted_unique_texts(names: Vec<String>) -> (r: Vec<String>)
    ensures
        strictly_sorted(r@),
        forall|x: Seq<char>| #[trigger] holds_text(r@, x) <==> holds_text(names@, x),
{
    let mut out: Vec<String> = Vec::new();
    let mut i: usize = 0;
    while i < names.len()
        invariant
            i <= names@.len(),
            strictly_sorted(out@),
            forall|x: Seq<char>| #[trigger] holds_text(out@, x) <==> holds_text(names@.take(i as int), x),
        decreases names@.len() - i,
    {
        let name = &names[i];
        let mut p: usize = 0;
        while p < out.len() && text_before(out[p].as_str(), name.as_str())
            invariant
                p <= out@.len(),
                forall|k: int| 0 <= k < p ==> text_less(#[trigger] out@[k]@, name@),
            decreases out@.len() - p,
        {
            p = p + 1;
        }
        let ghost before = out@;
        proof {
            assert forall|x: Seq<char>| #[trigger] holds_text(names@.take(i + 1), x) <==> (holds_text(
                names@.take(i as int),
                x,
            ) || x == name@) by {
                if holds_text(names@.take(i + 1), x) {
                    let j = choose|j: int| 0 <= j < i + 1 && #[trigger] names@.take(i + 1)[j]@ == x;
                    if j < i {
                        assert(names@.take(i as int)[j]@ == x);
                    }
                }
                if holds_text(names@.take(i as int), x) {
                    let j = choose|j: int| 0 <= j < i && #[trigger] names@.take(i as int)[j]@ == x;
                    assert(names@.take(i + 1)[j]@ == x);
                }
                if x == name@ {
                    assert(names@.take(i + 1)[i as int]@ == x);
                }
            }
        }
        if p < out.len() && str_equal(out[p].as_str(), name.as_str()) {
            proof {
                assert forall|x: Seq<char>| #[trigger] holds_text(out@, x) <==> holds_text(names@.take(i + 1), x) by {
                    if x == name@ {
                        assert(out@[p as int]@ == x);
                    }
                }
            }
        } else {
            proof {
                if p < out@.len() {
                    lemma_text_less_total(out@[p as int]@, name@);
                }
            }
            out.insert(p, name.clone());
            proof {
                assert(out@ == before.insert(p as int, names@[i as int]));
                assert forall|a: int, b: int| 0 <= a < b < out@.len() implies text_less(out@[a]@, out@[b]@) by {
                    if b == p {
                        assert(out@[a] == before[a]);
                    } else if a == p {
                        assert(out@[b] == before[b - 1]);
                        if b - 1 > p {
                            lemma_text_less_transitive(name@, before[p as int]@, before[b - 1]@);
                        }
                    } else if a < p && b > p {
                        assert(out@[a] == before[a]);
                        assert(out@[b] == before[b - 1]);
                    } else if a > p {
                        assert(out@[a] == before[a - 1]);
                        assert(out@[b] == before[b - 1]);
                    }
                }
                assert forall|x: Seq<char>| #[trigger] holds_text(out@, x) <==> holds_text(names@.take(i + 1), x) by {
                    if holds_text(out@, x) {
                        let k = choose|k: int| 0 <= k < out@.len() && #[trigger] out@[k]@ == x;
                        if k < p {
                            assert(before[k]@ == x);
                            assert(holds_text(before, x));
                        } else if k > p {
                            assert(before[k - 1]@ == x);
                            assert(holds_text(before, x));
                        }
                    }
                    if holds_text(before, x) {
                        let k = choose|k: int| 0 <= k < before.len() && #[trigger] before[k]@ == x;
                        if k < p {
                            assert(out@[k]@ == x);
                        } else {
                            assert(out@[k + 1]@ == x);
                        }
                    }
                    if x == name@ {
                        assert(out@[p as int]@ == x);
                    }
                }
            }
        }
        i = i + 1;
    }
    proof {
        assert(names@.take(i as int) =~= names@);
    }
    out
}

/// Whether `order` lists each position of `n` once.
pub open spec fn is_permutation_of_range(order: Seq<usize>, n: nat) -> bool {
    &&& order.len() == n
    &&& forall|k: int| 0 <= k < order.len() ==> order[k] < n
    &&& forall|k: int, l: int| 0 <= k < l < order.len() ==> order[k] != order[l]
}

/// Positions of the names in sorted order; equal names keep their order.
pub fn sorted_name_order(names: &[String]) -> (r: Vec<usize>)
    ensures
        is_permutation_of_range(r@, names@.len()),
        forall|k: int, l: int| 0 <= k < l < r@.len() ==> !text_less(names@[r@[l] as int]@, names@[r@[k] as int]@),
        forall|k: int, l: int|
            0 <= k < l < r@.len() && names@[r@[k] as int]@ == names@[r@[l] as int]@ ==> r@[k] < r@[l],
{
    let mut order: Vec<usize> = Vec::new();
    let mut i: usize = 0;
    while i < names.len()
        invariant
            i <= names@.len(),
            is_permutation_of_range(order@, i as nat),
            forall|k: int, l: int| 0 <= k < l < order@.len() ==> !text_less(names@[order@[l] as int]@, names@[order@[k] as int]@),
            forall|k: int, l: int|
                0 <= k < l < order@.len() && names@[order@[k] as int]@ == names@[order@[l] as int]@ ==> order@[k] < order@[l],
        decreases names@.len() - i,
    {
        let name = names[i].as_str();
        let mut p: usize = 0;
        while p < order.len() && !text_before(name, names[order[p]].as_str())
            invariant
                p <= order@.len(),
                is_permutation_of_range(order@, i as nat),
                i < names@.len(),
                name@ == names@[i as int]@,
                forall|k: int| 0 <= k < p ==> !text_less(name@, #[trigger] names@[order@[k] as int]@),
            decreases order@.len() - p,
        {
            p = p + 1;
        }
        let ghost before = order@;
        order.insert(p, i);
        proof {
            assert(order@ == before.insert(p as int, i));
            assert forall|k: int, l: int| 0 <= k < l < order@.len() implies order@[k] != order@[l] by {
                if k == p {
                    assert(order@[l] == before[l - 1]);
                } else if l == p {
                    assert(order@[k] == before[k]);
                } else if k < p && l > p {
                    assert(order@[k] == before[k]);
                    assert(order@[l] == before[l - 1]);
                } else if k > p {
                    assert(order@[k] == before[k - 1]);
                    assert(order@[l] == before[l - 1]);
                } else {
                    assert(order@[k] == before[k]);
                    assert(order@[l] == before[l]);
                }
            }
            assert forall|k: int| 0 <= k < order@.len() implies order@[k] < i + 1 by {
                if k < p {
                    assert(order@[k] == before[k]);
                } else if k > p {
                    assert(order@[k] == before[k - 1]);
                }
            }
            assert forall|k: int, l: int| 0 <= k < l < order@.len() implies !text_less(
                names@[order@[l] as int]@,
                names@[order@[k] as int]@,
            ) && (names@[order@[k] as int]@ == names@[order@[l] as int]@ ==> order@[k] < order@[l]) by {
                let nk = names@[order@[k] as int]@;
                let nl = names@[order@[l] as int]@;
                if l == p {
                    assert(order@[k] == before[k]);
                    lemma_text_less_total(nk, nl);
                } else if k == p {
                    assert(order@[l] == before[l - 1]);
                    if p < before.len() {
                        let first = names@[before[p as int] as int]@;
                        lemma_text_less_total(name@, first);
                        if l - 1 > p {
                            lemma_text_less_total(first, nl);
                            if text_less(nl, name@) {
                                if text_less(first, nl) {
                                    lemma_text_less_transitive(first, nl, name@);
                                } else {
                                    lemma_text_less_total(first, nl);
                                }
                            }
                        }
                    }
                    lemma_text_less_total(nl, name@);
                } else if k < p && l > p {
                    assert(order@[k] == before[k]);
                    assert(order@[l] == before[l - 1]);
                } else if k > p {
                    assert(order@[k] == before[k - 1]);
                    assert(order@[l] == before[l - 1]);
                } else {
                    assert(order@[k] == before[k]);
                    assert(order@[l] == before[l]);
                }
            }
        }
        i = i + 1;
    }
    order
}

/// Whether a character is an ASCII digit.
pub open spec fn is_digit(c: char) -> bool {
    '0' <= c <= '9'
}

/// The number that a string of ASCII digits denotes.
pub open spec fn digits_value(d: Seq<char>) -> int
    decreases d.len(),
{
    if d.len() == 0 {
        0
    } else {
        digits_value(d.drop_last()) * 10 + (d.last() as int - '0' as int)
    }
}

/// The number that a text denotes in decimal: an optional `+` and at least one digit,
/// nothing else.
pub open spec fn decimal_value(s: Seq<char>) -> Option<int> {
    let d = if s.len() > 0 && s[0] == '+' {
        s.drop_first()
    } else {
        s
    };
    if d.len() > 0 && forall|i: int| 0 <= i < d.len() ==> is_digit(#[trigger] d[i]) {
        Some(digits_value(d))
    } else {
        None
    }
}

/// `str::parse::<usize>`, which the standard library documents as accepting an optional
/// `+` followed by decimal digits whose value fits.
#[verifier::external_body]
pub(crate) fn parse_usize(s: &str) -> (r: Option<usize>)
    ensures
        r == match decimal_value(s@) {
            Some(v) => if v <= usize::MAX {
                Some(v as usize)
            } else {
                None
            },
            None => None,
        },
{
    s.parse::<usize>().ok()
}

/// `str::parse::<u32>`, which the standard library documents as accepting an optional
/// `+` followed by decimal digits whose value fits.
#[verifier::external_body]
pub(crate) fn parse_u32(s: &str) -> (r: Option<u32>)
    ensures
        r == match decimal_value(s@) {
            Some(v) => if v <= u32::MAX {
                Some(v as u32)
            } else {
                None
            },
            None => None,
        },
{
    s.parse::<u32>().ok()
}

/// The two texts one after the other.
pub(crate) fn concat(a: &str, b: &str) -> (r: String)
    ensures
        r@ == a@ + b@,
{
    let mut out = a.to_owned();
    out.append(b);
    out
}

} // verus!
