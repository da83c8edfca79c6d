//! Text operations on names and path templates.
use vstd::prelude::*;

verus! {

/// `text` in which every occurrence of the two characters `a`, `b`, found
/// from the left without overlap, is replaced by `with`.
pub open spec fn replaced(text: Seq<char>, a: char, b: char, with: Seq<char>) -> Seq<char>
    decreases text.len(),
{
    if text.len() < 2 {
        text
    } else if text[0] == a && text[1] == b {
        with + replaced(text.skip(2), a, b, with)
    } else {
        seq![text[0]] + replaced(text.skip(1), a, b, with)
    }
}

/// Whether the two characters `a`, `b` stand next to each other somewhere in `text`.
pub open spec fn occurs(text: Seq<char>, a: char, b: char) -> bool {
    exists|i: int| 0 <= i && i + 1 < text.len() && text[i] == a && #[trigger] text[i + 1] == b
}

/// A path template expanded for `name`: each `{}` becomes `name`.
pub open spec fn expanded(template: Seq<char>, name: Seq<char>) -> Seq<char> {
    replaced(template, '{', '}', name)
}

/// A display name without the marker `#0` of the outermost scope.
pub open spec fn unmarked(name: Seq<char>) -> Seq<char> {
    replaced(name, '#', '0', Seq::empty())
}

/// What `str::to_lowercase` returns for a string.
pub uninterp spec fn lowercase_of(s: Seq<char>) -> Seq<char>;

/// The name that a template is expanded with.
pub open spec fn cased(name: Seq<char>, lower: bool) -> Seq<char> {
    if lower {
        lowercase_of(name)
    } else {
        name
    }
}

/// The import path of the component `name` under `template`.
pub open spec fn path_of(template: Seq<char>, name: Seq<char>, lower: bool) -> Seq<char> {
    expanded(template, cased(name, lower))
}

/// Calls `str::to_lowercase`. Its result is a function of the string alone
/// (the Unicode lower-case mapping, without regard to any locale), which the
/// contract names and does not spell out.
#[verifier::external_body]
fn to_lowercase(s: &str) -> (r: String)
    ensures
        r@ == lowercase_of(s@),
{
    s.to_lowercase()
}

/// Whether two strings hold the same characters.
pub fn same_text(a: &str, b: &str) -> (r: bool)
    ensures
        r == (a@ == b@),
{
    let x = String::from_str(a);
    let y = String::from_str(b);
    x == y
}

/// Replaces every occurrence of the two characters `a`, `b` in `text` by `with`.
pub fn replace_pair(text: &str, a: char, b: char, with: &str) -> (out: String)
    ensures
        out@ == replaced(text@, a, b, with@),
{
    let n: usize = text.unicode_len();
    let mut out = String::new();
    let mut i: usize = 0;
    proof {
        assert(text@.skip(0) =~= text@);
        assert(out@ + replaced(text@, a, b, with@) =~= replaced(text@, a, b, with@));
    }
    while i < n
        invariant
            i <= n,
            n == text@.len(),
            out@ + replaced(text@.skip(i as int), a, b, with@) == replaced(text@, a, b, with@),
        decreases n - i,
    {
        let ghost rest = text@.skip(i as int);
        if i + 1 < n && text.get_char(i) == a && text.get_char(i + 1) == b {
            proof {
                assert(rest.skip(2) =~= text@.skip(i + 2));
                assert(out@ + with@ + replaced(rest.skip(2), a, b, with@) =~= out@ + (with@
                    + replaced(rest.skip(2), a, b, with@)));
            }
            out.append(with);
            i += 2;
        } else {
            let one = text.substring_char(i, i + 1);
            proof {
                assert(one@ =~= seq![rest[0]]);
                if rest.len() >= 2 {
                    assert(rest.skip(1) =~= text@.skip(i + 1));
                    assert(out@ + one@ + replaced(rest.skip(1), a, b, with@) =~= out@ + (one@
                        + replaced(rest.skip(1), a, b, with@)));
                } else {
                    assert(text@.skip(i + 1) =~= Seq::<char>::empty());
                    assert(out@ + one@ + replaced(text@.skip(i + 1), a, b, with@) =~= out@
                        + rest);
                }
            }
            out.append(one);
            i += 1;
        }
    }
    proof {
        assert(text@.skip(n as int) =~= Seq::<char>::empty());
        assert(out@ + Seq::<char>::empty() =~= out@);
    }
    out
}

/// Expands a path template for a name that already has its final case.
pub fn expand_template(template: &str, name: &str) -> (out: String)
    ensures
        out@ == expanded(template@, name@),
{
    replace_pair(template, '{', '}', name)
}

/// Removes the outermost scope's marker from a display name.
pub fn strip_marker(name: &str) -> (out: String)
    ensures
        out@ == unmarked(name@),
{
    proof {
        reveal_strlit("");
        assert(""@ =~= Seq::<char>::empty());
    }
    replace_pair(name, '#', '0', "")
}

/// The import path of a component: the template expanded with the
/// component's name, lower-cased first where `lower` is set.
pub fn component_path(template: &str, name: &str, lower: bool) -> (out: String)
    ensures
        out@ == path_of(template@, name@, lower),
{
    if lower {
        let low = to_lowercase(name);
        expand_template(template, low.as_str())
    } else {
        expand_template(template, name)
    }
}

/// A text without the pattern is left as it is.
pub proof fn lemma_replaced_absent(text: Seq<char>, a: char, b: char, with: Seq<char>)
    requires
        !occurs(text, a, b),
    ensures
        replaced(text, a, b, with) == text,
    decreases text.len(),
{
    if text.len() >= 2 {
        assert(!(text[0] == a && text[0int + 1] == b));
        let rest = text.skip(1);
        assert(!occurs(rest, a, b)) by {
            if occurs(rest, a, b) {
                let i = choose|i: int|
                    0 <= i && i + 1 < rest.len() && rest[i] == a && #[trigger] rest[i + 1] == b;
                assert(text[i + 1] == a && text[(i + 1) + 1] == b);
            }
        }
        lemma_replaced_absent(rest, a, b, with);
        assert(seq![text[0]] + rest =~= text);
    }
}

/// A template that is exactly the placeholder expands to the name.
pub proof fn lemma_expanded_placeholder(name: Seq<char>)
    ensures
        expanded(seq!['{', '}'], name) == name,
{
    let t = seq!['{', '}'];
    assert(t.skip(2) =~= Seq::<char>::empty());
    assert(replaced(t.skip(2), '{', '}', name) =~= Seq::<char>::empty());
    assert(name + Seq::<char>::empty() =~= name);
}

} // verus!
