use vstd::prelude::*;
use vstd::string::StringExecFns;

verus! {

/// `c` in ASCII upper case; other characters are kept.
pub open spec fn ascii_upper(c: char) -> char {
    if 'a' <= c <= 'z' {
        ((c as int) - 32) as char
    } else {
        c
    }
}

/// `c` in ASCII lower case; other characters are kept.
pub open spec fn ascii_lower(c: char) -> char {
    if 'A' <= c <= 'Z' {
        ((c as int) + 32) as char
    } else {
        c
    }
}

/// `UPPERCASE` and `SCREAMING_SNAKE_CASE`: the name in ASCII upper case.
pub open spec fn upper_field(name: Seq<char>) -> Seq<char> {
    name.map_values(|c: char| ascii_upper(c))
}

/// `kebab-case`: every `_` becomes `-`.
pub open spec fn kebab_field(name: Seq<char>) -> Seq<char> {
    name.map_values(
        |c: char|
            if c == '_' {
                '-'
            } else {
                c
            },
    )
}

/// `SCREAMING-KEBAB-CASE`: upper case, then every `_` becomes `-`.
pub open spec fn screaming_kebab_field(name: Seq<char>) -> Seq<char> {
    kebab_field(upper_field(name))
}

/// `PascalCase` from a position: each `_` is dropped and the character
/// after it is made upper case, as is the first one when `capitalize`.
pub open spec fn pascal_from(name: Seq<char>, capitalize: bool) -> Seq<char>
    decreases name.len(),
{
    if name.len() == 0 {
        Seq::empty()
    } else if name[0] == '_' {
        pascal_from(name.drop_first(), true)
    } else if capitalize {
        seq![ascii_upper(name[0])] + pascal_from(name.drop_first(), false)
    } else {
        seq![name[0]] + pascal_from(name.drop_first(), false)
    }
}

/// `PascalCase`: capitalise the first character and each one after a `_`,
/// and drop the `_`.
pub open spec fn pascal_field(name: Seq<char>) -> Seq<char> {
    pascal_from(name, true)
}

/// `camelCase`: `PascalCase`, then the first character in lower case.
pub open spec fn camel_field(name: Seq<char>) -> Seq<char> {
    let pascal = pascal_field(name);
    if pascal.len() == 0 {
        pascal
    } else {
        seq![ascii_lower(pascal[0])] + pascal.skip(1)
    }
}

/// Appends the ASCII upper-case form of the `i`th character of `name`.
fn append_upper(out: &mut String, name: &str, i: usize)
    requires
        i < name@.len(),
    ensures
        final(out)@ == old(out)@.push(ascii_upper(name@[i as int])),
{
    let c = name.get_char(i);
    if 'a' <= c && c <= 'z' {
        let letters = "ABCDEFGHIJKLMNOPQRSTUVWXYZ";
        proof {
            reveal_strlit("ABCDEFGHIJKLMNOPQRSTUVWXYZ");
        }
        let k = (c as u32 - 97) as usize;
        let letter = letters.substring_char(k, k + 1);
        assert(letter@ =~= seq![ascii_upper(c)]) by {
            assert(letters@[k as int] == ascii_upper(c));
        }
        out.append(letter);
    } else {
        let n = name.unicode_len();
        assert(i < n);
        let same = name.substring_char(i, i + 1);
        assert(same@ =~= seq![c]);
        out.append(same);
    }
}

/// Appends the ASCII lower-case form of the `i`th character of `name`.
fn append_lower(out: &mut String, name: &str, i: usize)
    requires
        i < name@.len(),
    ensures
        final(out)@ == old(out)@.push(ascii_lower(name@[i as int])),
{
    let c = name.get_char(i);
    if 'A' <= c && c <= 'Z' {
        let letters = "abcdefghijklmnopqrstuvwxyz";
        proof {
            reveal_strlit("abcdefghijklmnopqrstuvwxyz");
        }
        let k = (c as u32 - 65) as usize;
        let letter = letters.substring_char(k, k + 1);
        assert(letter@ =~= seq![ascii_lower(c)]) by {
            assert(letters@[k as int] == ascii_lower(c));
        }
        out.append(letter);
    } else {
        let n = name.unicode_len();
        assert(i < n);
        let same = name.substring_char(i, i + 1);
        assert(same@ =~= seq![c]);
        out.append(same);
    }
}

/// Appends the `i`th character of `name`, with `_` made `-` when `dash`.
fn append_same(out: &mut String, name: &str, i: usize, dash: bool)
    requires
        i < name@.len(),
    ensures
        final(out)@ == old(out)@.push(
            if dash && name@[i as int] == '_' {
                '-'
            } else {
                name@[i as int]
            },
        ),
{
    if dash && name.get_char(i) == '_' {
        let hyphen = "-";
        proof {
            reveal_strlit("-");
        }
        assert(hyphen@ =~= seq!['-']);
        out.append(hyphen);
    } else {
        let n = name.unicode_len();
        assert(i < n);
        let same = name.substring_char(i, i + 1);
        assert(same@ =~= seq![name@[i as int]]);
        out.append(same);
    }
}

/// The field name in ASCII upper case (`UPPERCASE`, `SCREAMING_SNAKE_CASE`),
/// with `_` made `-` when `dash` (`SCREAMING-KEBAB-CASE`).
pub fn upper_case_field(name: &str, dash: bool) -> (res: String)
    ensures
        res@ == if dash {
            screaming_kebab_field(name@)
        } else {
            upper_field(name@)
        },
{
    let n = name.unicode_len();
    let mut out = String::new();
    let mut i: usize = 0;
    while i < n
        invariant
            n == name@.len(),
            i <= n,
            out@.len() == i,
            forall|j: int|
                0 <= j < i ==> #[trigger] out@[j] == if dash && ascii_upper(name@[j]) == '_' {
                    '-'
                } else {
                    ascii_upper(name@[j])
                },
        decreases n - i,
    {
        let mut piece = String::new();
        append_upper(&mut piece, name, i);
        if dash {
            let upper = piece.as_str();
            assert(upper@.len() == 1);
            let mut dashed = String::new();
            append_same(&mut dashed, upper, 0, true);
            out.append(dashed.as_str());
        } else {
            out.append(piece.as_str());
        }
        i = i + 1;
    }
    if dash {
        assert(out@ =~= screaming_kebab_field(name@));
    } else {
        assert(out@ =~= upper_field(name@));
    }
    out
}

/// The field name with each `_` made `-` (`kebab-case`).
pub fn kebab_case_field(name: &str) -> (res: String)
    ensures
        res@ == kebab_field(name@),
{
    let n = name.unicode_len();
    let mut out = String::new();
    let mut i: usize = 0;
    while i < n
        invariant
            n == name@.len(),
            i <= n,
            out@.len() == i,
            forall|j: int|
                0 <= j < i ==> #[trigger] out@[j] == if name@[j] == '_' {
                    '-'
                } else {
                    name@[j]
                },
        decreases n - i,
    {
        append_same(&mut out, name, i, true);
        i = i + 1;
    }
    assert(out@ =~= kebab_field(name@));
    out
}

/// The field name in `PascalCase`.
pub fn pascal_case_field(name: &str) -> (res: String)
    ensures
        res@ == pascal_field(name@),
{
    let n = name.unicode_len();
    let mut out = String::new();
    let mut capitalize = true;
    let mut i: usize = 0;
    assert(name@.skip(0) =~= name@);
    while i < n
        invariant
            n == name@.len(),
            i <= n,
            pascal_field(name@) == out@ + pascal_from(name@.skip(i as int), capitalize),
        decreases n - i,
    {
        let ghost rest = name@.skip(i as int);
        assert(rest.drop_first() =~= name@.skip(i + 1));
        assert(rest[0] == name@[i as int]);
        let ghost before = out@;
        if name.get_char(i) == '_' {
            capitalize = true;
        } else if capitalize {
            append_upper(&mut out, name, i);
            capitalize = false;
            assert(before + (seq![ascii_upper(name@[i as int])] + pascal_from(
                name@.skip(i + 1),
                false,
            )) =~= out@ + pascal_from(name@.skip(i + 1), false));
        } else {
            append_same(&mut out, name, i, false);
            assert(before + (seq![name@[i as int]] + pascal_from(name@.skip(i + 1), false))
                =~= out@ + pascal_from(name@.skip(i + 1), false));
        }
        i = i + 1;
    }
    assert(name@.skip(n as int) =~= Seq::<char>::empty());
    assert(out@ + Seq::<char>::empty() =~= out@);
    out
}

/// The field name in `camelCase`.
pub fn camel_case_field(name: &str) -> (res: String)
    ensures
        res@ == camel_field(name@),
{
    let pascal = pascal_case_field(name);
    let p = pascal.as_str();
    let n = p.unicode_len();
    if n == 0 {
        return pascal;
    }
    let mut out = String::new();
    append_lower(&mut out, p, 0);
    let rest = p.substring_char(1, n);
    out.append(rest);
    assert(out@ =~= seq![ascii_lower(p@[0])] + p@.skip(1));
    out
}

/// `kebab-case` changes characters one by one: the name keeps its length,
/// every `_` becomes `-`, every other character stays, and no `_` is left.
pub proof fn kebab_case_replaces_every_underscore(name: Seq<char>)
    ensures
        kebab_field(name).len() == name.len(),
        forall|j: int|
            0 <= j < name.len() ==> #[trigger] kebab_field(name)[j] == (if name[j] == '_' {
                '-'
            } else {
                name[j]
            }),
        !kebab_field(name).contains('_'),
{
    let k = kebab_field(name);
    assert forall|j: int| 0 <= j < k.len() implies k[j] != '_' by {}
}

/// `UPPERCASE` changes characters one by one: the name keeps its length, a
/// lower-case ASCII letter becomes its capital (32 below it), and every
/// other character stays.
pub proof fn upper_case_maps_each_letter(name: Seq<char>)
    ensures
        upper_field(name).len() == name.len(),
        forall|j: int|
            0 <= j < name.len() ==> {
                let c = name[j];
                let u = #[trigger] upper_field(name)[j];
                &&& ('a' <= c <= 'z' ==> u as int == c as int - 32)
                &&& (!('a' <= c <= 'z') ==> u == c)
            },
{
}

/// `SCREAMING-KEBAB-CASE` changes characters one by one: every `_`
/// becomes `-`, a lower-case ASCII letter becomes its capital, every other
/// character stays, and no `_` is left.
pub proof fn screaming_kebab_maps_each_character(name: Seq<char>)
    ensures
        screaming_kebab_field(name).len() == name.len(),
        forall|j: int|
            0 <= j < name.len() ==> {
                let c = name[j];
                let r = #[trigger] screaming_kebab_field(name)[j];
                &&& (c == '_' ==> r == '-')
                &&& ('a' <= c <= 'z' ==> r as int == c as int - 32)
                &&& (c != '_' && !('a' <= c <= 'z') ==> r == c)
            },
        !screaming_kebab_field(name).contains('_'),
{
    let r = screaming_kebab_field(name);
    assert forall|j: int| 0 <= j < r.len() implies r[j] != '_' by {}
}

/// `PascalCase` drops every `_`: an underscore between two parts ends one
/// word and capitalises the next, so the result is the parts, each in
/// `PascalCase`, one after the other.
pub proof fn pascal_case_splits_at_underscores(a: Seq<char>, b: Seq<char>, capitalize: bool)
    ensures
        pascal_from(a + seq!['_'] + b, capitalize) == pascal_from(a, capitalize) + pascal_from(
            b,
            true,
        ),
    decreases a.len(),
{
    let whole = a + seq!['_'] + b;
    if a.len() == 0 {
        assert(whole.drop_first() =~= b);
        assert(pascal_from(a, capitalize) + pascal_from(b, true) =~= pascal_from(b, true));
    } else {
        assert(whole[0] == a[0]);
        assert(whole.drop_first() =~= a.drop_first() + seq!['_'] + b);
        pascal_case_splits_at_underscores(a.drop_first(), b, true);
        pascal_case_splits_at_underscores(a.drop_first(), b, false);
        if a[0] != '_' {
            let head = if capitalize {
                ascii_upper(a[0])
            } else {
                a[0]
            };
            assert(seq![head] + (pascal_from(a.drop_first(), false) + pascal_from(b, true))
                =~= seq![head] + pascal_from(a.drop_first(), false) + pascal_from(b, true));
        }
    }
}

/// A part with no `_` keeps its characters in `PascalCase`, with only the
/// first one capitalised when `capitalize`.
pub proof fn pascal_case_keeps_a_word(word: Seq<char>, capitalize: bool)
    requires
        !word.contains('_'),
    ensures
        pascal_from(word, capitalize).len() == word.len(),
        forall|j: int|
            0 < j < word.len() ==> #[trigger] pascal_from(word, capitalize)[j] == word[j],
        word.len() > 0 ==> pascal_from(word, capitalize)[0] == (if capitalize {
            ascii_upper(word[0])
        } else {
            word[0]
        }),
    decreases word.len(),
{
    if word.len() > 0 {
        assert(word[0] != '_');
        let rest = word.drop_first();
        assert(!rest.contains('_')) by {
            if rest.contains('_') {
                let k = choose|k: int| 0 <= k < rest.len() && rest[k] == '_';
                assert(word[k + 1] == '_');
            }
        }
        pascal_case_keeps_a_word(rest, false);
        let p = pascal_from(word, capitalize);
        assert forall|j: int| 0 < j < word.len() implies #[trigger] p[j] == word[j] by {
            assert(p[j] == pascal_from(rest, false)[j - 1]);
            if j - 1 > 0 {
                assert(pascal_from(rest, false)[j - 1] == rest[j - 1]);
            } else {
                assert(pascal_from(rest, false)[0] == rest[0]);
            }
        }
    }
}

/// `camelCase` is `PascalCase` with only its first character lowered: the
/// same length, the first character an ASCII lower-case letter where
/// `PascalCase` has a capital, every later character unchanged.
pub proof fn camel_case_lowers_only_the_first(name: Seq<char>)
    ensures
        camel_field(name).len() == pascal_field(name).len(),
        forall|j: int|
            0 < j < pascal_field(name).len() ==> #[trigger] camel_field(name)[j] == pascal_field(
                name,
            )[j],
        pascal_field(name).len() > 0 ==> {
            let p = pascal_field(name)[0];
            let c = camel_field(name)[0];
            &&& ('A' <= p <= 'Z' ==> c as int == p as int + 32)
            &&& (!('A' <= p <= 'Z') ==> c == p)
        },
{
}

/// `PascalCase` leaves no `_`.
pub proof fn pascal_case_has_no_underscore(name: Seq<char>, capitalize: bool)
    ensures
        !pascal_from(name, capitalize).contains('_'),
    decreases name.len(),
{
    if name.len() > 0 {
        pascal_case_has_no_underscore(name.drop_first(), true);
        pascal_case_has_no_underscore(name.drop_first(), false);
        let p = pascal_from(name, capitalize);
        if p.contains('_') {
            let k = choose|k: int| 0 <= k < p.len() && p[k] == '_';
            if name[0] != '_' {
                if k > 0 {
                    let rest = pascal_from(name.drop_first(), false);
                    assert(p[k] == rest[k - 1]);
                }
            } else {
                assert(p[k] == pascal_from(name.drop_first(), true)[k]);
            }
        }
    }
}

} // verus!
