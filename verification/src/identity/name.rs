//! Human-readable names.
use vstd::prelude::*;
use vstd::string::StrSliceExecFns;
use vstd::string::StringSliceAdditionalSpecFns;

verus! {

#[derive(Debug, Clone, Copy, PartialEq, Eq, Structural)]
pub enum NameError {
    TooShort,
    TooLong,
    InvalidChar(char),
    LeadingOrTrailingHyphen,
    AlreadyTaken,
}

impl NameError {
    pub open spec fn words(self) -> Seq<char> {
        match self {
            NameError::TooShort => "Name too short (min 3 chars)"@,
            NameError::TooLong => "Name too long (max 32 chars)"@,
            NameError::InvalidChar(c) => "Invalid character '"@ + seq![c]
                + "' — only lowercase letters, digits, hyphens allowed"@,
            NameError::LeadingOrTrailingHyphen => "Name must not start or end with a hyphen"@,
            NameError::AlreadyTaken => "Name already registered"@,
        }
    }

    /// The error in words.
    pub fn message(&self) -> (r: String)
        ensures
            r@ == self.words(),
    {
        match self {
            NameError::TooShort => "Name too short (min 3 chars)".to_owned(),
            NameError::TooLong => "Name too long (max 32 chars)".to_owned(),
            NameError::InvalidChar(c) => {
                let c = char_text(*c);
                crate::text::joined3(
                    "Invalid character '",
                    c.as_str(),
                    "' — only lowercase letters, digits, hyphens allowed",
                )
            },
            NameError::LeadingOrTrailingHyphen => {
                "Name must not start or end with a hyphen".to_owned()
            },
            NameError::AlreadyTaken => "Name already registered".to_owned(),
        }
    }
}

/// `String::from(char)`: the text of that one character.
#[verifier::external_body]
fn char_text(c: char) -> (r: String)
    ensures
        r@ == seq![c],
{
    String::from(c)
}

/// A letter that a name may hold.
pub open spec fn name_char(c: char) -> bool {
    ('a' <= c && c <= 'z') || ('0' <= c && c <= '9') || c == '-'
}

/// A text without any `.hlx` at its end.
pub open spec fn without_suffix(s: Seq<char>) -> Seq<char>
    decreases s.len(),
    via suffix_has_length
{
    if ".hlx"@.is_suffix_of(s) {
        without_suffix(s.take(s.len() - 4))
    } else {
        s
    }
}

#[via_fn]
proof fn suffix_has_length(s: Seq<char>) {
    reveal_strlit(".hlx");
}

/// Every letter before position `i` is one that a name may hold.
pub open spec fn name_chars_until(s: Seq<char>, i: int) -> bool {
    forall|k: int| 0 <= k < i ==> name_char(#[trigger] s[k])
}

/// The first letter of a text that a name may not hold.
pub open spec fn first_bad_char(s: Seq<char>) -> Option<char>
    decreases s.len(),
{
    if s.len() == 0 {
        None
    } else if !name_char(s[0]) {
        Some(s[0])
    } else {
        first_bad_char(s.drop_first())
    }
}

proof fn first_bad_char_is(s: Seq<char>, i: int)
    requires
        0 <= i <= s.len(),
        name_chars_until(s, i),
        i < s.len() ==> !name_char(s[i]),
    ensures
        first_bad_char(s) == (if i < s.len() {
            Some(s[i])
        } else {
            None
        }),
    decreases s.len(),
{
    if i > 0 {
        assert(name_char(s[0]));
        assert forall|k: int| 0 <= k < i - 1 implies name_char(#[trigger] s.drop_first()[k]) by {
            assert(s.drop_first()[k] == s[k + 1]);
        }
        first_bad_char_is(s.drop_first(), i - 1);
    }
}

/// What is wrong with a text (without suffix) as a name, if anything.
pub open spec fn name_fault(s: Seq<char>) -> Option<NameError> {
    let size = vstd::utf8::encode_utf8(s).len();
    if size < 3 {
        Some(NameError::TooShort)
    } else if size > 32 {
        Some(NameError::TooLong)
    } else {
        match first_bad_char(s) {
            Some(c) => Some(NameError::InvalidChar(c)),
            None => if s[0] == '-' || s.last() == '-' {
                Some(NameError::LeadingOrTrailingHyphen)
            } else {
                None
            },
        }
    }
}

/// A name is 3 to 32 lower-case letters, digits and hyphens, no hyphen first or last.
pub open spec fn is_name(s: Seq<char>) -> bool {
    &&& 3 <= s.len() <= 32
    &&& name_chars_until(s, s.len() as int)
    &&& s[0] != '-'
    &&& s.last() != '-'
}

/// A registered name, kept without `.hlx`.
#[derive(Debug, PartialEq, Eq, Hash)]
pub struct HelixName(String);

impl View for HelixName {
    type V = Seq<char>;

    closed spec fn view(&self) -> Seq<char> {
        self.0@
    }
}

impl Clone for HelixName {
    fn clone(&self) -> (r: Self)
        ensures
            r@ == self@,
    {
        proof {
            use_type_invariant(self);
        }
        HelixName(self.0.clone())
    }
}

fn ends_with_hlx(s: &str) -> (r: bool)
    ensures
        r == ".hlx"@.is_suffix_of(s@),
        r ==> s@.len() >= 4,
{
    proof {
        reveal_strlit(".hlx");
    }
    let n: usize = s.unicode_len();
    if n < 4 {
        return false;
    }
    let r = s.get_char(n - 4) == '.' && s.get_char(n - 3) == 'h' && s.get_char(n - 2) == 'l'
        && s.get_char(n - 1) == 'x';
    proof {
        let tail = s@.subrange(n - 4, n as int);
        if r {
            assert(".hlx"@ =~= tail);
        } else if ".hlx"@.is_suffix_of(s@) {
            assert(tail[0] == ".hlx"@[0] && tail[1] == ".hlx"@[1] && tail[2] == ".hlx"@[2]
                && tail[3] == ".hlx"@[3]);
        }
    }
    r
}

impl HelixName {
    #[verifier::type_invariant]
    spec fn well_formed(self) -> bool {
        is_name(self.0@)
    }

    /// Checks a name, with or without `.hlx` behind it.
    pub fn new(name: &str) -> (r: Result<Self, NameError>)
        ensures
            match r {
                Ok(n) => name_fault(without_suffix(name@)) is None && n@ == without_suffix(name@)
                    && is_name(n@),
                Err(e) => name_fault(without_suffix(name@)) == Some(e),
            },
    {
        let mut bare = name;
        while ends_with_hlx(bare)
            invariant
                without_suffix(bare@) == without_suffix(name@),
            decreases bare@.len(),
        {
            let ghost before = bare@;
            bare = bare.substring_char(0, bare.unicode_len() - 4);
            proof {
                assert(bare@ =~= before.take(before.len() - 4));
            }
        }
        assert(bare@ == without_suffix(name@));
        let size: usize = bare.as_bytes().len();
        if size < 3 {
            return Err(NameError::TooShort);
        }
        if size > 32 {
            return Err(NameError::TooLong);
        }
        let n: usize = bare.unicode_len();
        let mut i: usize = 0;
        while i < n
            invariant
                i <= n == bare@.len(),
                name_chars_until(bare@, i as int),
                bare@ == without_suffix(name@),
                3 <= bare.spec_bytes().len() <= 32,
            decreases n - i,
        {
            let c = bare.get_char(i);
            if !(('a' <= c && c <= 'z') || ('0' <= c && c <= '9') || c == '-') {
                proof {
                    first_bad_char_is(bare@, i as int);
                }
                return Err(NameError::InvalidChar(c));
            }
            i = i + 1;
        }
        proof {
            assert(vstd::utf8::is_ascii_chars(bare@)) by {
                assert forall|k: int| 0 <= k < bare@.len() implies 0 <= (
                #[trigger] bare@[k] as u32) < 128 by {
                    assert(name_char(bare@[k]));
                }
            }
            vstd::utf8::is_ascii_chars_encode_utf8(bare@);
            first_bad_char_is(bare@, n as int);
        }
        if bare.get_char(0) == '-' || bare.get_char(n - 1) == '-' {
            return Err(NameError::LeadingOrTrailingHyphen);
        }
        Ok(HelixName(bare.to_owned()))
    }

    pub fn as_str(&self) -> (r: &str)
        ensures
            r@ == self@,
            is_name(self@),
    {
        proof {
            use_type_invariant(self);
        }
        self.0.as_str()
    }

    /// The name with `.hlx` behind it.
    pub fn full(&self) -> (r: String)
        ensures
            r@ == self@ + ".hlx"@,
    {
        crate::text::joined2(self.0.as_str(), ".hlx")
    }
}

/// A registered name read back in full is the same name.
pub proof fn full_name_reads_back(s: Seq<char>)
    requires
        is_name(s),
    ensures
        without_suffix(s + ".hlx"@) == s,
        name_fault(s) is None,
{
    reveal_strlit(".hlx");
    reveal_with_fuel(without_suffix, 2);
    let full = s + ".hlx"@;
    assert(full.subrange(full.len() - 4, full.len() as int) =~= ".hlx"@);
    assert(full.take(full.len() - 4) =~= s);
    assert(!(".hlx"@.is_suffix_of(s))) by {
        if ".hlx"@.is_suffix_of(s) {
            let tail = s.subrange(s.len() - 4, s.len() as int);
            assert(tail[0] == '.');
            assert(name_char(s[s.len() - 4]));
        }
    }
    assert(vstd::utf8::is_ascii_chars(s)) by {
        assert forall|k: int| 0 <= k < s.len() implies 0 <= (#[trigger] s[k] as u32) < 128 by {
            assert(name_char(s[k]));
        }
    }
    vstd::utf8::is_ascii_chars_encode_utf8(s);
    first_bad_char_is(s, s.len() as int);
}

} // verus!
