//! What names and guardians promise.
use crate::identity::name::{first_bad_char, name_char, name_fault, without_suffix, NameError};
use crate::identity::recovery::{guardian_fault, RecoveryError};
use vstd::prelude::*;

verus! {

/// A letter of a name is a lower-case letter, a digit or a hyphen.
pub open spec fn is_letter(c: char) -> bool {
    ('a' <= c && c <= 'z') || ('0' <= c && c <= '9') || c == '-'
}

proof fn bad_char_is_first(s: Seq<char>)
    ensures
        first_bad_char(s) is None <==> forall|i: int| 0 <= i < s.len() ==> is_letter(#[trigger] s[i]),
        first_bad_char(s) is Some ==> exists|i: int|
            {
                &&& 0 <= i < s.len()
                &&& #[trigger] s[i] == first_bad_char(s)->0
                &&& !is_letter(s[i])
                &&& forall|j: int| 0 <= j < i ==> is_letter(#[trigger] s[j])
            },
    decreases s.len(),
{
    if s.len() > 0 {
        if !name_char(s[0]) {
            assert(!is_letter(s[0]));
        } else {
            let rest = s.drop_first();
            bad_char_is_first(rest);
            assert forall|i: int| 1 <= i < s.len() implies #[trigger] s[i] == rest[i - 1] by {}
            if first_bad_char(rest) is None {
                assert forall|i: int| 0 <= i < s.len() implies is_letter(#[trigger] s[i]) by {
                    if i > 0 {
                        assert(is_letter(rest[i - 1]));
                    }
                }
            } else {
                let i = choose|i: int|
                    {
                        &&& 0 <= i < rest.len()
                        &&& #[trigger] rest[i] == first_bad_char(rest)->0
                        &&& !is_letter(rest[i])
                        &&& forall|j: int| 0 <= j < i ==> is_letter(#[trigger] rest[j])
                    };
                assert(s[i + 1] == first_bad_char(s)->0);
                assert forall|j: int| 0 <= j < i + 1 implies is_letter(#[trigger] s[j]) by {
                    if j > 0 {
                        assert(is_letter(rest[j - 1]));
                    }
                }
            }
        }
    }
}

/// A name is refused exactly if it has fewer than three or more than thirty-two
/// bytes, holds anything but lower-case letters, digits and hyphens, or begins or
/// ends with a hyphen; the first of these is what is said of it.
pub proof fn names_are_refused_for_these_reasons(s: Seq<char>)
    ensures
        ({
            let size = vstd::utf8::encode_utf8(s).len();
            let letters = forall|i: int| 0 <= i < s.len() ==> is_letter(#[trigger] s[i]);
            &&& size < 3 <==> name_fault(s) == Some(NameError::TooShort)
            &&& size > 32 <==> name_fault(s) == Some(NameError::TooLong)
            &&& 3 <= size <= 32 && !letters <==> name_fault(s) is Some && name_fault(
                s,
            )->0 is InvalidChar
            &&& 3 <= size <= 32 && letters && (s[0] == '-' || s.last() == '-') <==> name_fault(s)
                == Some(NameError::LeadingOrTrailingHyphen)
            &&& 3 <= size <= 32 && letters && s[0] != '-' && s.last() != '-' <==> name_fault(
                s,
            ) is None
        }),
{
    bad_char_is_first(s);
}

/// Every `.hlx` at a name's end is taken off, and nothing else: what is left does not
/// end in it, and with it put back so often the text is as it was.
pub proof fn only_suffixes_are_taken_off(s: Seq<char>)
    ensures
        !(".hlx"@.is_suffix_of(without_suffix(s))),
        ".hlx"@.is_suffix_of(s) ==> without_suffix(s) == without_suffix(s.take(s.len() - 4)),
        !(".hlx"@.is_suffix_of(s)) ==> without_suffix(s) == s,
        without_suffix(s).is_prefix_of(s),
    decreases s.len(),
{
    reveal_strlit(".hlx");
    if ".hlx"@.is_suffix_of(s) {
        let t = s.take(s.len() - 4);
        only_suffixes_are_taken_off(t);
        let w = without_suffix(t);
        assert(w == t.subrange(0, w.len() as int));
        assert(w =~= s.subrange(0, w.len() as int));
    } else {
        assert(s =~= s.subrange(0, s.len() as int));
    }
}

/// Guardians are refused exactly if there are fewer than three or more than ten, the
/// owner is among them, or one is named twice.
pub proof fn guardians_are_refused_for_these_reasons(owner: Seq<char>, list: Seq<Seq<char>>)
    ensures
        guardian_fault(owner, list) is None <==> 3 <= list.len() <= 10 && !list.contains(owner)
            && list.no_duplicates(),
        guardian_fault(owner, list) == Some(RecoveryError::TooFewGuardians) <==> list.len() < 3,
        guardian_fault(owner, list) == Some(RecoveryError::TooManyGuardians) <==> list.len() > 10,
        guardian_fault(owner, list) == Some(RecoveryError::SelfGuardian) <==> 3 <= list.len() <= 10
            && list.contains(owner),
        guardian_fault(owner, list) == Some(RecoveryError::DuplicateGuardian) <==> 3 <= list.len()
            <= 10 && !list.contains(owner) && !list.no_duplicates(),
{
}

} // verus!
