use vstd::prelude::*;

verus! {

/// The characters of `s`.
pub fn string_chars(s: &String) -> (v: Vec<char>)
    ensures
        v@ == s@,
{
    let st = s.as_str();
    let n = st.unicode_len();
    let mut v: Vec<char> = Vec::new();
    let mut i: usize = 0;
    while i < n
        invariant
            n == st@.len(),
            st@ == s@,
            i <= n,
            v@ == st@.subrange(0, i as int),
        decreases n - i,
    {
        v.push(st.get_char(i));
        i = i + 1;
        assert(v@ =~= st@.subrange(0, i as int));
    }
    assert(st@.subrange(0, n as int) =~= st@);
    v
}

/// `char::to_string`: the one-character string `c`.
#[verifier::external_body]
pub fn char_to_string(c: char) -> (s: String)
    ensures
        s@ == seq![c],
{
    c.to_string()
}

/// The string of the characters `cs[i..j]`.
pub fn chars_to_string(cs: &Vec<char>, i: usize, j: usize) -> (s: String)
    requires
        i <= j <= cs@.len(),
    ensures
        s@ == cs@.subrange(i as int, j as int),
{
    let mut s = String::new();
    let mut k = i;
    while k < j
        invariant
            i <= k <= j,
            j <= cs@.len(),
            s@ == cs@.subrange(i as int, k as int),
        decreases j - k,
    {
        let c = char_to_string(cs[k]);
        s.append(c.as_str());
        k = k + 1;
        assert(s@ =~= cs@.subrange(i as int, k as int));
    }
    s
}

} // verus!
