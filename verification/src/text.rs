use vstd::prelude::*;
use vstd::string::StringExecFns;

verus! {

/// Whether two strings hold the same characters.
pub fn same_text(a: &str, b: &str) -> (res: bool)
    ensures
        res == (a@ == b@),
{
    let n = a.unicode_len();
    if n != b.unicode_len() {
        return false;
    }
    let mut i: usize = 0;
    while i < n
        invariant
            n == a@.len(),
            n == b@.len(),
            i <= n,
            forall|j: int| 0 <= j < i ==> a@[j] == b@[j],
        decreases n - i,
    {
        if a.get_char(i) != b.get_char(i) {
            return false;
        }
        i = i + 1;
    }
    assert(a@ =~= b@);
    true
}

/// An identifier's text without its raw marker `r#`.
pub open spec fn unraw_spec(name: Seq<char>) -> Seq<char> {
    if name.len() >= 2 && name[0] == 'r' && name[1] == '#' {
        name.skip(2)
    } else {
        name
    }
}

/// `name` without its raw marker, so `r#type` gives `type`.
pub fn unraw(name: &str) -> (res: String)
    ensures
        res@ == unraw_spec(name@),
{
    let n = name.unicode_len();
    if n >= 2 && name.get_char(0) == 'r' && name.get_char(1) == '#' {
        let rest = name.substring_char(2, n);
        assert(rest@ =~= name@.skip(2));
        rest.to_owned()
    } else {
        name.to_owned()
    }
}

/// The decimal digit character for `d < 10`.
pub open spec fn digit(d: nat) -> char {
    (d + 48) as char
}

/// The decimal representation of `n`, most significant digit first.
pub open spec fn decimal(n: nat) -> Seq<char>
    decreases n,
{
    if n < 10 {
        seq![digit(n)]
    } else {
        decimal(n / 10).push(digit(n % 10))
    }
}

/// `index` written in decimal, as `index.to_string()` writes it.
pub fn index_key(index: usize) -> (res: String)
    ensures
        res@ == decimal(index as nat),
    decreases index,
{
    let digits = "0123456789";
    proof {
        reveal_strlit("0123456789");
    }
    let d = index % 10;
    let last = digits.substring_char(d, d + 1);
    assert(last@ =~= seq![digit(d as nat)]) by {
        assert(digits@[d as int] == digit(d as nat));
    }
    if index < 10 {
        last.to_owned()
    } else {
        let mut res = index_key(index / 10);
        res.append(last);
        res
    }
}

} // verus!
