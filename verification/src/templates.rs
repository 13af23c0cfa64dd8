//! Template file names.

use vstd::prelude::*;
use crate::text::{chars_of, owned, push_char, push_str};

verus! {

/// What std's `char::is_alphanumeric` answers for `c` (the Unicode
/// `Alphabetic` or `Numeric` property).
pub uninterp spec fn alphanumeric(c: char) -> bool;

/// std's `char::is_alphanumeric`. Trusted: the answer is `alphanumeric(c)`;
/// which characters have the Unicode properties is left unsaid.
#[verifier::external_body]
pub(crate) fn is_alphanumeric(c: char) -> (b: bool)
    ensures
        b == alphanumeric(c),
{
    c.is_alphanumeric()
}

/// The sanitized form of `cs`, where `alnum[i]` says whether `cs[i]` is
/// alphanumeric: spaces become `_`, other alphanumeric characters stay, the
/// rest are dropped.
pub open spec fn sanitized_with(cs: Seq<char>, alnum: Seq<bool>) -> Seq<char>
    decreases cs.len(),
{
    if cs.len() == 0 {
        Seq::<char>::empty()
    } else {
        let rest = sanitized_with(cs.drop_last(), alnum.drop_last());
        if cs.last() == ' ' {
            rest.push('_')
        } else if alnum.last() {
            rest.push(cs.last())
        } else {
            rest
        }
    }
}

/// Whether each character of `cs` is alphanumeric.
pub open spec fn alnum_marks(cs: Seq<char>) -> Seq<bool> {
    cs.map_values(|c: char| alphanumeric(c))
}

/// The sanitized form of a template name.
pub open spec fn sanitized(name: Seq<char>) -> Seq<char> {
    sanitized_with(name, alnum_marks(name))
}

/// The message of a refused template name.
pub open spec fn empty_name_message() -> Seq<char> {
    "Template name must contain at least one alphanumeric character."@
}

/// Sanitizes `name` given, for each of its characters, whether it is
/// alphanumeric. Refuses a name from which nothing is left.
pub fn sanitize_marked(name: &str, alnum: &Vec<bool>) -> (r: Result<String, String>)
    requires
        alnum@.len() == name@.len(),
    ensures
        r is Ok <==> sanitized_with(name@, alnum@).len() > 0,
        r matches Ok(s) ==> s@ == sanitized_with(name@, alnum@),
        r matches Err(e) ==> e@ == empty_name_message(),
{
    let cs = chars_of(name);
    let mut out = String::new();
    let mut i: usize = 0;
    let mut count: usize = 0;
    while i < cs.len()
        invariant
            cs@ == name@,
            alnum@.len() == cs@.len(),
            i <= cs.len(),
            out@ == sanitized_with(cs@.take(i as int), alnum@.take(i as int)),
            count == out@.len(),
            count <= i,
        decreases cs.len() - i,
    {
        let c = cs[i];
        assert(cs@.take(i + 1).drop_last() =~= cs@.take(i as int));
        assert(alnum@.take(i + 1).drop_last() =~= alnum@.take(i as int));
        if c == ' ' {
            push_char(&mut out, '_');
            count += 1;
        } else if alnum[i] {
            push_char(&mut out, c);
            count += 1;
        }
        i += 1;
    }
    assert(cs@.take(cs.len() as int) =~= cs@);
    assert(alnum@.take(cs.len() as int) =~= alnum@);
    if count == 0 {
        return Err(owned("Template name must contain at least one alphanumeric character."));
    }
    Ok(out)
}

/// Turns a template name into a file name stem: spaces become `_`, other
/// alphanumeric characters stay, everything else is dropped. A name with
/// nothing left is refused.
pub fn sanitize_name(name: &str) -> (r: Result<String, String>)
    ensures
        r is Ok <==> sanitized(name@).len() > 0,
        r matches Ok(s) ==> s@ == sanitized(name@),
        r matches Err(e) ==> e@ == empty_name_message(),
{
    let cs = chars_of(name);
    let mut marks: Vec<bool> = Vec::new();
    let mut i: usize = 0;
    while i < cs.len()
        invariant
            cs@ == name@,
            i <= cs.len(),
            marks@ == alnum_marks(cs@).take(i as int),
        decreases cs.len() - i,
    {
        marks.push(is_alphanumeric(cs[i]));
        i += 1;
        assert(marks@ =~= alnum_marks(cs@).take(i as int));
    }
    assert(marks@ =~= alnum_marks(name@));
    sanitize_marked(name, &marks)
}

/// The file name under which a template is saved (and deleted): its
/// sanitized name followed by `.json`.
pub fn template_file_name(name: &str) -> (r: Result<String, String>)
    ensures
        r is Ok <==> sanitized(name@).len() > 0,
        r matches Ok(f) ==> f@ == sanitized(name@) + ".json"@,
        r matches Err(e) ==> e@ == empty_name_message(),
{
    let mut f = sanitize_name(name)?;
    push_str(&mut f, ".json");
    Ok(f)
}

/// A sanitized name holds only `_` and alphanumeric characters, and it is
/// empty exactly when the name holds no space and no alphanumeric character.
pub proof fn law_sanitized_characters(cs: Seq<char>, alnum: Seq<bool>)
    requires
        alnum.len() == cs.len(),
    ensures
        forall|k: int| 0 <= k < sanitized_with(cs, alnum).len() ==> {
            let c = #[trigger] sanitized_with(cs, alnum)[k];
            c == '_' || exists|j: int| 0 <= j < cs.len() && cs[j] == c && alnum[j]
        },
        sanitized_with(cs, alnum).len() > 0 <==> exists|j: int| 0 <= j < cs.len() && (cs[j] == ' ' || alnum[j]),
    decreases cs.len(),
{
    if cs.len() > 0 {
        let t = cs.drop_last();
        let a = alnum.drop_last();
        law_sanitized_characters(t, a);
        let r = sanitized_with(t, a);
        let s = sanitized_with(cs, alnum);
        let n = cs.len() - 1;
        assert forall|k: int| 0 <= k < s.len() implies {
            let c = #[trigger] s[k];
            c == '_' || exists|j: int| 0 <= j < cs.len() && cs[j] == c && alnum[j]
        } by {
            if k < r.len() {
                assert(s[k] == r[k]);
                if s[k] != '_' {
                    let j = choose|j: int| 0 <= j < t.len() && t[j] == r[k] && a[j];
                    assert(cs[j] == s[k] && alnum[j]);
                }
            } else if cs[n] != ' ' {
                assert(s[k] == cs[n] && alnum[n]);
            }
        }
        if s.len() > 0 && r.len() == 0 {
            assert(cs[n] == ' ' || alnum[n]);
        }
        if r.len() > 0 {
            let j = choose|j: int| 0 <= j < t.len() && (t[j] == ' ' || a[j]);
            assert(cs[j] == t[j] && alnum[j] == a[j]);
        }
        if exists|j: int| 0 <= j < cs.len() && (cs[j] == ' ' || alnum[j]) {
            let j = choose|j: int| 0 <= j < cs.len() && (cs[j] == ' ' || alnum[j]);
            if j < n {
                assert(t[j] == cs[j] && a[j] == alnum[j]);
            }
        }
    }
}

/// Whether a character survives sanitizing: a space or an alphanumeric
/// character (std's `char::is_alphanumeric`).
pub open spec fn survives_sanitizing() -> spec_fn(char) -> bool {
    |c: char| c == ' ' || alphanumeric(c)
}

/// A space becomes `_`; any other character stays.
pub open spec fn space_to_underscore(c: char) -> char {
    if c == ' ' { '_' } else { c }
}

/// The sanitized form of a name is its spaces and alphanumeric characters,
/// in order, with each space turned into `_`.
pub proof fn law_sanitized_keeps_spaces_and_alphanumerics(name: Seq<char>)
    ensures
        sanitized(name) == name.filter(survives_sanitizing()).map_values(|c: char| space_to_underscore(c)),
    decreases name.len(),
{
    reveal(Seq::filter);
    if name.len() > 0 {
        let t = name.drop_last();
        law_sanitized_keeps_spaces_and_alphanumerics(t);
        assert(alnum_marks(name).drop_last() =~= alnum_marks(t));
        assert(alnum_marks(name).last() == alphanumeric(name.last()));
        let f = t.filter(survives_sanitizing());
        let g = |c: char| space_to_underscore(c);
        if survives_sanitizing()(name.last()) {
            assert(f.push(name.last()).map_values(g) =~= f.map_values(g).push(space_to_underscore(name.last())));
        }
    }
}

/// Every character of a sanitized name is `_` or an alphanumeric character
/// of the name.
pub proof fn law_sanitized_characters_come_from_the_name(name: Seq<char>)
    ensures
        forall|k: int| 0 <= k < sanitized(name).len() ==> {
            let c = #[trigger] sanitized(name)[k];
            c == '_' || (alphanumeric(c) && name.contains(c))
        },
{
    law_sanitized_characters(name, alnum_marks(name));
    assert forall|k: int| 0 <= k < sanitized(name).len() implies {
        let c = #[trigger] sanitized(name)[k];
        c == '_' || (alphanumeric(c) && name.contains(c))
    } by {
        let c = sanitized(name)[k];
        if c != '_' {
            let j = choose|j: int| 0 <= j < name.len() && name[j] == c && alnum_marks(name)[j];
            assert(alnum_marks(name)[j] == alphanumeric(name[j]));
        }
    }
}

} // verus!
