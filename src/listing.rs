//! The list of templates offered to the user, and the name the user picks from it.
use vstd::prelude::*;
use vstd::string::StringExecFns;
use crate::text::{chars_of, replace_all, replace_chars, string_of};

verus! {

/// The index of the last `.` of `s`, or -1.
pub open spec fn last_dot(s: Seq<char>) -> int
    decreases s.len(),
{
    if s.len() == 0 {
        -1
    } else if s.last() == '.' {
        s.len() - 1
    } else {
        last_dot(s.drop_last())
    }
}

/// Whether a file name has the extension `bat`, in any case of its letters. The extension
/// is what follows the last dot, when that dot is not the name's first character.
pub open spec fn is_bat_name(name: Seq<char>) -> bool {
    let d = last_dot(name);
    &&& d > 0
    &&& name.len() == d + 4
    &&& name[d + 1] == 'b' || name[d + 1] == 'B'
    &&& name[d + 2] == 'a' || name[d + 2] == 'A'
    &&& name[d + 3] == 't' || name[d + 3] == 'T'
}

/// Whether the file called `name` is a template, judged by its extension.
pub fn is_bat_file(name: &str) -> (r: bool)
    ensures
        r == is_bat_name(name@),
{
    let s = chars_of(name);
    let mut i: usize = s.len();
    assert(s@.take(i as int) =~= s@);
    while i > 0 && s[i - 1] != '.'
        invariant
            i <= s.len(),
            last_dot(s@) == last_dot(s@.take(i as int)),
        decreases i,
    {
        assert(s@.take(i as int).drop_last() =~= s@.take(i - 1));
        i = i - 1;
    }
    if i == 0 {
        assert(s@.take(0) =~= Seq::<char>::empty());
        return false;
    }
    let d = i - 1;
    assert(last_dot(s@) == d);
    d > 0 && s.len() - d == 4 && (s[d + 1] == 'b' || s[d + 1] == 'B') && (s[d + 2] == 'a' || s[d
        + 2] == 'A') && (s[d + 3] == 't' || s[d + 3] == 'T')
}

/// A name as it is shown in the list: `"`, `<` and `>` written as HTML entities, in that
/// order.
pub open spec fn escape_spec(name: Seq<char>) -> Seq<char> {
    replace_all(
        replace_all(replace_all(name, seq!['"'], "&quot;"@), seq!['<'], "&lt;"@),
        seq!['>'],
        "&gt;"@,
    )
}

/// A name picked from the list: the entities `&quot;`, `&lt;` and `&gt;` turned back into
/// characters, in that order.
pub open spec fn unescape_spec(name: Seq<char>) -> Seq<char> {
    replace_all(
        replace_all(replace_all(name, "&quot;"@, seq!['"']), "&lt;"@, seq!['<']),
        "&gt;"@,
        seq!['>'],
    )
}

fn replace_str(s: &Vec<char>, from: &str, to: &str) -> (r: Vec<char>)
    ensures
        r@ == replace_all(s@, from@, to@),
{
    replace_chars(s, &chars_of(from), &chars_of(to))
}

/// The name as it is shown in the list.
pub fn escape_name(name: &str) -> (r: String)
    ensures
        r@ == escape_spec(name@),
{
    let s = chars_of(name);
    proof {
        reveal_strlit("\"");
        reveal_strlit("<");
        reveal_strlit(">");
    }
    let a = replace_str(&s, "\"", "&quot;");
    let b = replace_str(&a, "<", "&lt;");
    let c = replace_str(&b, ">", "&gt;");
    assert("\""@ =~= seq!['"']);
    assert("<"@ =~= seq!['<']);
    assert(">"@ =~= seq!['>']);
    string_of(&c)
}

/// The template name behind an entry picked from the list.
pub fn unescape_name(name: &str) -> (r: String)
    ensures
        r@ == unescape_spec(name@),
{
    let s = chars_of(name);
    proof {
        reveal_strlit("\"");
        reveal_strlit("<");
        reveal_strlit(">");
    }
    let a = replace_str(&s, "&quot;", "\"");
    let b = replace_str(&a, "&lt;", "<");
    let c = replace_str(&b, "&gt;", ">");
    assert("\""@ =~= seq!['"']);
    assert("<"@ =~= seq!['<']);
    assert(">"@ =~= seq!['>']);
    string_of(&c)
}

/// The HTML of one entry of the list: a radio button with the given id and value, checked
/// when it is the active template, and its label.
pub open spec fn entry_html(id: Seq<char>, name: Seq<char>, checked: bool) -> Seq<char> {
    "\n                        <div>\n                            <input id=\"bat-name-"@ + id
        + "\" name=\"bat-name\" value=\""@ + name + "\" type=\"radio\" "@ + (if checked {
        "checked"@
    } else {
        ""@
    }) + ">\n                            <label for=\"bat-name-"@ + id + "\">"@ + name
        + "</label>\n                        </div>\n                    "@
}

/// The HTML of the list entry for the file `file_name` (already escaped), with `id` to tie
/// the label to the button; it is checked when the name equals `active`.
pub fn bat_entry_html(id: &str, file_name: &str, active: &str) -> (r: String)
    ensures
        r@ == entry_html(id@, file_name@, file_name@ == active@),
{
    let checked = {
        let a = chars_of(file_name);
        let b = chars_of(active);
        let mut same = a.len() == b.len();
        let mut i: usize = 0;
        while same && i < a.len()
            invariant
                i <= a.len(),
                same ==> a.len() == b.len() && a@.take(i as int) == b@.take(i as int),
                !same ==> a@ != b@,
            decreases a.len() - i,
        {
            if a[i] != b[i] {
                assert(a@[i as int] != b@[i as int]);
                same = false;
            } else {
                assert(a@.take(i + 1) =~= a@.take(i as int).push(a@[i as int]));
                assert(b@.take(i + 1) =~= b@.take(i as int).push(b@[i as int]));
            }
            i = i + 1;
        }
        if same {
            assert(a@ =~= a@.take(a.len() as int));
            assert(b@ =~= b@.take(b.len() as int));
        }
        same
    };
    let mut s = String::from_str("\n                        <div>\n                            <input id=\"bat-name-");
    s.append(id);
    s.append("\" name=\"bat-name\" value=\"");
    s.append(file_name);
    s.append("\" type=\"radio\" ");
    if checked {
        s.append("checked");
    } else {
        s.append("");
    }
    s.append(">\n                            <label for=\"bat-name-");
    s.append(id);
    s.append("\">");
    s.append(file_name);
    s.append("</label>\n                        </div>\n                    ");
    s
}

} // verus!
