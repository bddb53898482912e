//! Domain names: syntactic validity, canonical (lowercase) form, and
//! zone membership by label-aligned suffix match.
//!
//! DNS names are case-insensitive; the store keys records by the lowercase
//! form of a fully-qualified, dot-terminated name.

use vstd::prelude::*;

verus! {

/// Characters allowed inside a DNS label: ASCII letters, digits and hyphen.
pub open spec fn is_label_char(c: char) -> bool {
    ('a' <= c && c <= 'z') || ('A' <= c && c <= 'Z') || ('0' <= c && c <= '9') || c == '-'
}

/// ASCII case folding of one character.
pub open spec fn lower_char(c: char) -> char {
    if 'A' <= c && c <= 'Z' {
        ((c as u8) + 32) as char
    } else {
        c
    }
}

/// Canonical form of a name: every character folded to lowercase.
pub open spec fn lower_seq(s: Seq<char>) -> Seq<char> {
    s.map_values(|c: char| lower_char(c))
}

/// A syntactically valid fully-qualified domain name: dot-terminated,
/// made of non-empty labels of label characters, at most 254 characters.
pub open spec fn valid_fqdn(s: Seq<char>) -> bool {
    &&& 2 <= s.len() <= 254
    &&& s[s.len() - 1] == '.'
    &&& s[0] != '.'
    &&& forall|i: int| 0 <= i < s.len() ==> is_label_char(#[trigger] s[i]) || s[i] == '.'
    &&& forall|i: int| 1 <= i < s.len() ==> !(#[trigger] s[i] == '.' && s[i - 1] == '.')
}

/// `name` lies in the zone rooted at `origin`: `origin` is a suffix of
/// `name` and the cut falls on a label boundary. Both are expected in
/// canonical (lowercase) form.
pub open spec fn in_zone(name: Seq<char>, origin: Seq<char>) -> bool {
    &&& origin.len() <= name.len()
    &&& name.subrange(name.len() - origin.len(), name.len() as int) == origin
    &&& (name.len() == origin.len() || name[name.len() - origin.len() - 1] == '.')
}

/// Folds one character to lowercase.
pub fn fold_char(c: char) -> (r: char)
    ensures
        r == lower_char(c),
{
    if 'A' <= c && c <= 'Z' {
        ((c as u8) + 32) as char
    } else {
        c
    }
}

/// Decides whether one character may appear inside a label.
pub fn check_label_char(c: char) -> (b: bool)
    ensures
        b == is_label_char(c),
{
    ('a' <= c && c <= 'z') || ('A' <= c && c <= 'Z') || ('0' <= c && c <= '9') || c == '-'
}

/// Decides syntactic validity of a fully-qualified domain name.
pub fn check_fqdn(s: &str) -> (b: bool)
    ensures
        b == valid_fqdn(s@),
{
    let n = s.unicode_len();
    if n < 2 || n > 254 {
        return false;
    }
    if s.get_char(0) == '.' {
        return false;
    }
    if s.get_char(n - 1) != '.' {
        return false;
    }
    let mut i: usize = 0;
    while i < n
        invariant
            i <= n,
            n == s@.len(),
            2 <= n <= 254,
            s@[0] != '.',
            s@[n - 1] == '.',
            forall|j: int| 0 <= j < i ==> is_label_char(#[trigger] s@[j]) || s@[j] == '.',
            forall|j: int| 1 <= j < i ==> !(#[trigger] s@[j] == '.' && s@[j - 1] == '.'),
        decreases n - i,
    {
        let c = s.get_char(i);
        if !(check_label_char(c) || c == '.') {
            return false;
        }
        if c == '.' && s.get_char(i - 1) == '.' {
            return false;
        }
        i += 1;
    }
    true
}

/// Canonicalizes a name: the same characters, folded to lowercase.
pub fn canonical_name(s: &str) -> (r: Vec<char>)
    ensures
        r@ == lower_seq(s@),
{
    let n = s.unicode_len();
    let mut r: Vec<char> = Vec::new();
    let mut i: usize = 0;
    while i < n
        invariant
            i <= n,
            n == s@.len(),
            r@.len() == i,
            forall|j: int| 0 <= j < i ==> r@[j] == lower_char(#[trigger] s@[j]),
        decreases n - i,
    {
        r.push(fold_char(s.get_char(i)));
        i += 1;
    }
    proof {
        assert(r@ =~= lower_seq(s@));
    }
    r
}

/// Canonicalizes a name already held as characters.
pub fn canonical_chars(v: &Vec<char>) -> (r: Vec<char>)
    ensures
        r@ == lower_seq(v@),
{
    let mut r: Vec<char> = Vec::new();
    let mut i: usize = 0;
    while i < v.len()
        invariant
            i <= v@.len(),
            r@.len() == i,
            forall|j: int| 0 <= j < i ==> r@[j] == lower_char(#[trigger] v@[j]),
        decreases v@.len() - i,
    {
        r.push(fold_char(v[i]));
        i += 1;
    }
    proof {
        assert(r@ =~= lower_seq(v@));
    }
    r
}

/// Decides zone membership of a canonical name against a canonical origin.
pub fn name_in_zone(name: &Vec<char>, origin: &Vec<char>) -> (b: bool)
    ensures
        b == in_zone(name@, origin@),
{
    let nl = name.len();
    let ol = origin.len();
    if ol > nl {
        return false;
    }
    if nl > ol && name[nl - ol - 1] != '.' {
        return false;
    }
    let mut i: usize = 0;
    while i < ol
        invariant
            i <= ol <= nl,
            nl == name@.len(),
            ol == origin@.len(),
            forall|j: int| 0 <= j < i ==> name@[nl - ol + j] == #[trigger] origin@[j],
        decreases ol - i,
    {
        if name[nl - ol + i] != origin[i] {
            proof {
                if in_zone(name@, origin@) {
                    assert(name@.subrange(nl - ol, nl as int)[i as int] == origin@[i as int]);
                }
            }
            return false;
        }
        i += 1;
    }
    proof {
        assert(name@.subrange(nl - ol, nl as int) =~= origin@);
    }
    true
}

/// Case folding is idempotent: a canonical name folds to itself.
pub proof fn lemma_lower_idempotent(s: Seq<char>)
    ensures
        lower_seq(lower_seq(s)) == lower_seq(s),
{
    assert(lower_seq(lower_seq(s)) =~= lower_seq(s));
}

/// Folding preserves syntactic validity of a name.
pub proof fn lemma_lower_preserves_valid(s: Seq<char>)
    requires
        valid_fqdn(s),
    ensures
        valid_fqdn(lower_seq(s)),
{
    assert forall|i: int| 0 <= i < lower_seq(s).len() implies is_label_char(
        #[trigger] lower_seq(s)[i],
    ) || lower_seq(s)[i] == '.' by {
        assert(is_label_char(s[i]) || s[i] == '.');
    }
    assert forall|i: int| 1 <= i < lower_seq(s).len() implies !(#[trigger] lower_seq(s)[i] == '.'
        && lower_seq(s)[i - 1] == '.') by {
        assert(lower_seq(s)[i] == lower_char(s[i]));
        assert(lower_seq(s)[i - 1] == lower_char(s[i - 1]));
    }
}

} // verus!
