//! Package identifiers and the sharded path under which a package is filed.

use vstd::prelude::*;
use vstd::string::*;
use crate::text::owned;

verus! {

/// Whether `c` is one of `a` to `z`.
pub open spec fn is_lower(c: char) -> bool {
    'a' <= c && c <= 'z'
}

/// Whether `c` may occur in an identifier after its first character.
pub open spec fn is_id_char(c: char) -> bool {
    is_lower(c) || ('0' <= c && c <= '9') || c == '-' || c == '_'
}

/// A valid identifier is not empty, starts with a lowercase letter and holds
/// only lowercase letters, digits, hyphens and underscores.
pub open spec fn valid_id(s: Seq<char>) -> bool {
    &&& s.len() > 0
    &&& is_lower(s[0])
    &&& forall|i: int| 0 <= i < s.len() ==> is_id_char(#[trigger] s[i])
}

/// The lowercase letters of `s`, in order.
pub open spec fn letters(s: Seq<char>) -> Seq<char>
    decreases s.len(),
{
    if s.len() == 0 {
        Seq::empty()
    } else if is_lower(s.last()) {
        letters(s.drop_last()).push(s.last())
    } else {
        letters(s.drop_last())
    }
}

/// The `k`-th character of the shard key: the `k`-th lowercase letter of the
/// identifier, or `x` where it has too few.
pub open spec fn shard_char(s: Seq<char>, k: int) -> char {
    if 0 <= k < letters(s).len() {
        letters(s)[k]
    } else {
        'x'
    }
}

/// The relative path of a package: two directory levels of two shard
/// characters each, then the identifier itself.
pub open spec fn indexed(s: Seq<char>) -> Seq<char> {
    seq![shard_char(s, 0), shard_char(s, 1), '/', shard_char(s, 2), shard_char(s, 3), '/'] + s
}

/// Why a text is no identifier.
#[derive(Clone, Copy, Debug, PartialEq, Eq, Structural)]
pub enum IdError {
    /// The text is empty.
    Empty,
    /// The first character is no lowercase letter.
    BadStart,
    /// A later character is none of the allowed ones.
    InvalidCharacter,
}

/// What reading `s` as an identifier gives.
pub open spec fn id_parsed(s: Seq<char>) -> Result<Seq<char>, IdError> {
    if s.len() == 0 {
        Err(IdError::Empty)
    } else if !is_lower(s[0]) {
        Err(IdError::BadStart)
    } else if !valid_id(s) {
        Err(IdError::InvalidCharacter)
    } else {
        Ok(s)
    }
}

/// A package identifier.
#[derive(Debug, PartialEq, Eq, Hash)]
pub struct Id(String);

impl View for Id {
    type V = Seq<char>;

    closed spec fn view(&self) -> Seq<char> {
        self.0@
    }
}

impl Clone for Id {
    fn clone(&self) -> (copy: Self)
        ensures
            copy@ == self@,
    {
        proof {
            use_type_invariant(self);
        }
        Id(self.0.clone())
    }
}

fn lower(c: char) -> (yes: bool)
    ensures
        yes == is_lower(c),
{
    'a' <= c && c <= 'z'
}

fn id_char(c: char) -> (yes: bool)
    ensures
        yes == is_id_char(c),
{
    lower(c) || ('0' <= c && c <= '9') || c == '-' || c == '_'
}

impl Id {
    #[verifier::type_invariant]
    spec fn well_formed(self) -> bool {
        valid_id(self.0@)
    }

    /// Reads an identifier, or says what rule the text breaks first.
    pub fn from_str(s: &str) -> (parsed: Result<Id, IdError>)
        ensures
            match id_parsed(s@) {
                Ok(view) => parsed is Ok && parsed->Ok_0@ == view,
                Err(e) => parsed == Err::<Id, IdError>(e),
            },
    {
        let n = s.unicode_len();
        if n == 0 {
            return Err(IdError::Empty);
        }
        if !lower(s.get_char(0)) {
            return Err(IdError::BadStart);
        }
        let mut i: usize = 1;
        while i < n
            invariant
                n == s@.len(),
                1 <= i <= n,
                is_lower(s@[0]),
                forall|j: int| 0 <= j < i ==> is_id_char(#[trigger] s@[j]),
            decreases n - i,
        {
            if !id_char(s.get_char(i)) {
                return Err(IdError::InvalidCharacter);
            }
            i += 1;
        }
        Ok(Id(owned(s)))
    }

    /// The identifier as text. Every identifier is valid.
    pub fn as_str(&self) -> (s: &str)
        ensures
            s@ == self@,
            valid_id(self@),
    {
        proof {
            use_type_invariant(self);
        }
        self.0.as_str()
    }

    /// The identifier as owned text.
    pub fn to_string(&self) -> (s: String)
        ensures
            s@ == self@,
    {
        self.0.clone()
    }

    /// Whether two identifiers are the same.
    pub fn same(&self, other: &Id) -> (yes: bool)
        ensures
            yes == (self@ == other@),
    {
        self.0 == other.0
    }

    /// The path of this package relative to the registry root: sharded by
    /// the first four lowercase letters of the identifier, padded with `x`.
    pub fn indexed_path(&self) -> (path: String)
        ensures
            path@ == indexed(self@),
    {
        let s = self.0.as_str();
        let n = s.unicode_len();
        let mut found: Vec<char> = Vec::new();
        let mut i: usize = 0;
        while i < n
            invariant
                n == s@.len(),
                i <= n,
                found@ == letters(s@.take(i as int)),
            decreases n - i,
        {
            let c = s.get_char(i);
            proof {
                assert(s@.take(i + 1).drop_last() =~= s@.take(i as int));
            }
            if lower(c) {
                found.push(c);
            }
            i += 1;
        }
        proof {
            assert(s@.take(n as int) =~= s@);
        }
        let c0 = if found.len() > 0 { found[0] } else { 'x' };
        let c1 = if found.len() > 1 { found[1] } else { 'x' };
        let c2 = if found.len() > 2 { found[2] } else { 'x' };
        let c3 = if found.len() > 3 { found[3] } else { 'x' };
        let mut path = String::new();
        path.push(c0);
        path.push(c1);
        path.push('/');
        path.push(c2);
        path.push(c3);
        path.push('/');
        path.append(s);
        proof {
            assert(path@ =~= indexed(self@));
        }
        path
    }

    /// The identifier `minecraft`.
    pub fn minecraft() -> (id: Id)
        ensures
            id@ == "minecraft"@,
    {
        proof {
            reveal_strlit("minecraft");
            let s = "minecraft"@;
            assert forall|i: int| 0 <= i < s.len() implies is_id_char(#[trigger] s[i]) by {
                if i == 0 {
                } else if i == 1 {
                } else if i == 2 {
                } else if i == 3 {
                } else if i == 4 {
                } else if i == 5 {
                } else if i == 6 {
                } else if i == 7 {
                } else {
                }
            }
        }
        Id("minecraft".to_owned())
    }

    /// The identifier `vanilla`.
    pub fn vanilla() -> (id: Id)
        ensures
            id@ == "vanilla"@,
    {
        proof {
            reveal_strlit("vanilla");
            let s = "vanilla"@;
            assert forall|i: int| 0 <= i < s.len() implies is_id_char(#[trigger] s[i]) by {
                if i == 0 {
                } else if i == 1 {
                } else if i == 2 {
                } else if i == 3 {
                } else if i == 4 {
                } else if i == 5 {
                } else {
                }
            }
        }
        Id("vanilla".to_owned())
    }

    /// The identifier `forge`.
    pub fn forge() -> (id: Id)
        ensures
            id@ == "forge"@,
    {
        proof {
            reveal_strlit("forge");
            let s = "forge"@;
            assert forall|i: int| 0 <= i < s.len() implies is_id_char(#[trigger] s[i]) by {
                if i == 0 {
                } else if i == 1 {
                } else if i == 2 {
                } else if i == 3 {
                } else {
                }
            }
        }
        Id("forge".to_owned())
    }

    /// The identifier `neoforge`.
    pub fn neoforge() -> (id: Id)
        ensures
            id@ == "neoforge"@,
    {
        proof {
            reveal_strlit("neoforge");
            let s = "neoforge"@;
            assert forall|i: int| 0 <= i < s.len() implies is_id_char(#[trigger] s[i]) by {
                if i == 0 {
                } else if i == 1 {
                } else if i == 2 {
                } else if i == 3 {
                } else if i == 4 {
                } else if i == 5 {
                } else if i == 6 {
                } else {
                }
            }
        }
        Id("neoforge".to_owned())
    }

    /// The identifier `fabric`.
    pub fn fabric() -> (id: Id)
        ensures
            id@ == "fabric"@,
    {
        proof {
            reveal_strlit("fabric");
            let s = "fabric"@;
            assert forall|i: int| 0 <= i < s.len() implies is_id_char(#[trigger] s[i]) by {
                if i == 0 {
                } else if i == 1 {
                } else if i == 2 {
                } else if i == 3 {
                } else if i == 4 {
                } else {
                }
            }
        }
        Id("fabric".to_owned())
    }
}

/// The shard characters are lowercase letters, so neither directory level of
/// an indexed path holds a separator.
pub proof fn lemma_shard_char_is_letter(s: Seq<char>, k: int)
    ensures
        is_lower(shard_char(s, k)),
    decreases s.len(),
{
    if 0 <= k < letters(s).len() {
        if is_lower(s.last()) {
            if k < letters(s.drop_last()).len() {
                lemma_shard_char_is_letter(s.drop_last(), k);
            }
        } else {
            lemma_shard_char_is_letter(s.drop_last(), k);
        }
    }
}

/// An indexed path has two directory levels of exactly two characters each,
/// followed by the identifier: separators stand at index 2 and 5 and nowhere
/// before them, and the rest is the identifier itself.
pub proof fn lemma_indexed_path_levels(s: Seq<char>)
    ensures
        indexed(s).len() == s.len() + 6,
        crate::text::position(indexed(s), '/') == 2,
        crate::text::position(indexed(s).subrange(3, indexed(s).len() as int), '/') == 2,
        indexed(s).subrange(6, indexed(s).len() as int) == s,
{
    let p = indexed(s);
    lemma_shard_char_is_letter(s, 0);
    lemma_shard_char_is_letter(s, 1);
    lemma_shard_char_is_letter(s, 2);
    lemma_shard_char_is_letter(s, 3);
    assert(p[0] == shard_char(s, 0));
    assert(p[1] == shard_char(s, 1));
    assert(p[2] == '/');
    crate::search::lemma_first_index(p, crate::text::is_char('/'), 2);
    let q = p.subrange(3, p.len() as int);
    assert(q[0] == shard_char(s, 2));
    assert(q[1] == shard_char(s, 3));
    assert(q[2] == '/');
    crate::search::lemma_first_index(q, crate::text::is_char('/'), 2);
    assert(p.subrange(6, p.len() as int) =~= s);
}

} // verus!
