//! The Hyprland provider: what it reads from the compositor's sockets.
//! Socket 1 answers `j/activewindow` with a JSON object; socket 2 streams
//! lines such as `activewindow>>kitty,~/src`.

use vstd::prelude::*;
use vstd::string::*;
use crate::record::Event;

verus! {

pub struct HyprlandProvider;

/// The prefix of the focus-change lines of the event socket.
pub open spec fn active_window_prefix() -> Seq<char> {
    "activewindow>>"@
}

/// The text before the first `sep` and the text after it; the whole text and
/// nothing when `sep` does not occur.
#[verifier::opaque]
pub open spec fn split_first(s: Seq<char>, sep: char) -> (Seq<char>, Seq<char>) {
    if s.contains(sep) {
        let k = choose|k: int| 0 <= k < s.len() && s[k] == sep && forall|j: int| 0 <= j < k ==> s[j] != sep;
        (s.take(k), s.skip(k + 1))
    } else {
        (s, Seq::empty())
    }
}

/// The (class, title) a line of the event socket announces, if it is a
/// focus change: after the prefix, the class up to the first comma and the
/// title after it (all of it is the class when there is no comma).
pub open spec fn line_focus(line: Seq<char>) -> Option<(Seq<char>, Seq<char>)> {
    let p = active_window_prefix();
    if p.len() <= line.len() && line.take(p.len() as int) == p {
        Some(split_first(line.skip(p.len() as int), ','))
    } else {
        None
    }
}

/// What `serde_json` finds at `key` of the JSON text: none when the text
/// does not parse, else the member's string, none when it is missing or not
/// a string.
pub uninterp spec fn json_string_member(text: Seq<char>, key: Seq<char>) -> Option<Option<Seq<char>>>;

pub open spec fn opt_view(o: Option<Option<String>>) -> Option<Option<Seq<char>>> {
    match o {
        Some(Some(s)) => Some(Some(s@)),
        Some(None) => Some(None),
        None => None,
    }
}

/// `serde_json::from_str::<serde_json::Value>(text)` then `value[key].as_str()`:
/// none when the text is not JSON, else the string at `key` (none when the
/// member is missing or not a string). Named `json_string_member`.
#[verifier::external_body]
fn json_str_member(text: &str, key: &str) -> (r: Option<Option<String>>)
    ensures
        opt_view(r) == json_string_member(text@, key@),
{
    let v: serde_json::Value = match serde_json::from_str(text) {
        Ok(v) => v,
        Err(_) => return None,
    };
    Some(v[key].as_str().map(String::from))
}

/// The (class, title) that the members `class` and `title` of an answer
/// give: none when the answer is not JSON; a missing or non-string member
/// counts as empty.
pub open spec fn members_focus(
    class: Option<Option<Seq<char>>>,
    title: Option<Option<Seq<char>>>,
) -> Option<(Seq<char>, Seq<char>)> {
    match (class, title) {
        (Some(c), Some(t)) => Some(
            (
                match c {
                    Some(s) => s,
                    None => Seq::empty(),
                },
                match t {
                    Some(s) => s,
                    None => Seq::empty(),
                },
            ),
        ),
        _ => None,
    }
}

/// The (class, title) of the answer to `j/activewindow`.
pub open spec fn answer_focus(text: Seq<char>) -> Option<(Seq<char>, Seq<char>)> {
    members_focus(json_string_member(text, "class"@), json_string_member(text, "title"@))
}

pub open spec fn event_focus(e: Option<Event>) -> Option<(Seq<char>, Seq<char>)> {
    match e {
        Some(Event::AppChange { class, title }) => Some((class@, title@)),
        _ => None,
    }
}

impl HyprlandProvider {
    /// The focus change a line of the event socket announces, if any.
    pub fn parse_event_line(line: &str) -> (r: Option<Event>)
        ensures
            event_focus(r) == line_focus(line@),
            r is Some ==> r matches Some(Event::AppChange { .. }),
    {
        reveal(split_first);
        let prefix = "activewindow>>";
        proof {
            reveal_strlit("activewindow>>");
        }
        let n = line.unicode_len();
        let plen = prefix.unicode_len();
        if n < plen {
            return None;
        }
        let mut i: usize = 0;
        while i < plen
            invariant
                i <= plen,
                plen == prefix@.len(),
                prefix@ == active_window_prefix(),
                plen <= n,
                n == line@.len(),
                forall|j: int| 0 <= j < i ==> line@[j] == prefix@[j],
            decreases plen - i,
        {
            if line.get_char(i) != prefix.get_char(i) {
                proof {
                    assert(line@.take(plen as int)[i as int] != prefix@[i as int]);
                }
                return None;
            }
            i = i + 1;
        }
        assert(line@.take(plen as int) =~= prefix@);
        assert(prefix@ == active_window_prefix());
        let rest = line.substring_char(plen, n);
        assert(rest@ =~= line@.skip(plen as int));
        let m = rest.unicode_len();
        let mut k: usize = 0;
        while k < m
            invariant
                k <= m,
                m == rest@.len(),
                forall|j: int| 0 <= j < k ==> rest@[j] != ',',
                rest@ == line@.skip(plen as int),
                plen == active_window_prefix().len(),
                plen <= line@.len(),
                line@.take(plen as int) == active_window_prefix(),
            decreases m - k,
        {
            if rest.get_char(k) == ',' {
                let class = rest.substring_char(0, k);
                let title = rest.substring_char(k + 1, m);
                proof {
                    reveal(split_first);
                    assert(rest@.contains(','));
                    let c = choose|c: int|
                        0 <= c < rest@.len() && rest@[c] == ',' && forall|j: int| 0 <= j < c ==> rest@[j] != ',';
                    assert(0 <= k < rest@.len() && rest@[k as int] == ',' && forall|j: int|
                        0 <= j < k ==> rest@[j] != ',');
                    if c < k {
                        assert(rest@[c] != ',');
                    }
                    if c > k {
                        assert(rest@[k as int] != ',');
                    }
                    assert(c == k);
                    assert(rest@ == line@.skip(plen as int));
                    assert(class@ =~= rest@.take(k as int));
                    assert(title@ =~= rest@.skip(k + 1));
                }
                return Some(Event::AppChange { class: String::from_str(class), title: String::from_str(title) });
            }
            k = k + 1;
        }
        proof {
            assert(!rest@.contains(','));
            assert(rest@ == line@.skip(plen as int));
        }
        Some(Event::AppChange { class: String::from_str(rest), title: String::new() })
    }

    /// The focused application from the answer to `j/activewindow`: none
    /// when the answer is not JSON; a missing class or title counts as empty.
    pub fn active_window_event(answer: &str) -> (r: Option<Event>)
        ensures
            event_focus(r) == answer_focus(answer@),
            r is Some ==> r matches Some(Event::AppChange { .. }),
    {
        let class = json_str_member(answer, "class");
        let title = json_str_member(answer, "title");
        proof {
            reveal_strlit("class");
            reveal_strlit("title");
        }
        HyprlandProvider::focus_from_members(class, title)
    }

    /// The focus change that the members `class` and `title` of the answer
    /// to `j/activewindow` give (none for an answer that is not JSON, a
    /// member that is missing or no string as empty).
    pub fn focus_from_members(class: Option<Option<String>>, title: Option<Option<String>>) -> (r: Option<Event>)
        ensures
            event_focus(r) == members_focus(opt_view(class), opt_view(title)),
            r is Some ==> r matches Some(Event::AppChange { .. }),
    {
        let class = match class {
            Some(c) => c,
            None => { return None; },
        };
        let title = match title {
            Some(t) => t,
            None => { return None; },
        };
        let class = match class {
            Some(s) => s,
            None => String::new(),
        };
        let title = match title {
            Some(s) => s,
            None => String::new(),
        };
        Some(Event::AppChange { class, title })
    }
}

/// The first comma splits a text into the part before it, which holds no
/// comma, and the part after it; without a comma the whole text is the
/// first part.
/// A text with a comma has a first comma.
proof fn lemma_first_comma(s: Seq<char>, i: int)
    requires
        0 <= i < s.len(),
        s[i] == ',',
    ensures
        exists|k: int| 0 <= k <= i && s[k] == ',' && forall|j: int| 0 <= j < k ==> s[j] != ',',
    decreases i,
{
    if exists|j: int| 0 <= j < i && s[j] == ',' {
        let j = choose|j: int| 0 <= j < i && s[j] == ',';
        lemma_first_comma(s, j);
    } else {
        assert(forall|j: int| 0 <= j < i ==> s[j] != ',');
    }
}

proof fn lemma_split_first_comma(s: Seq<char>)
    ensures
        forall|j: int| 0 <= j < split_first(s, ',').0.len() ==> #[trigger] split_first(s, ',').0[j] != ',',
        s.contains(',') ==> s == split_first(s, ',').0 + seq![','] + split_first(s, ',').1,
        !s.contains(',') ==> s == split_first(s, ',').0 && split_first(s, ',').1.len() == 0,
{
    reveal(split_first);
    if s.contains(',') {
        let i = choose|i: int| 0 <= i < s.len() && s[i] == ',';
        lemma_first_comma(s, i);
        let k = choose|k: int| 0 <= k < s.len() && s[k] == ',' && forall|j: int| 0 <= j < k ==> s[j] != ',';
        assert(0 <= k < s.len() && s[k] == ',' && forall|j: int| 0 <= j < k ==> s[j] != ',');
        let class = s.take(k);
        let title = s.skip(k + 1);
        assert(split_first(s, ',') == (class, title));
        assert(s =~= class + seq![','] + title);
        assert forall|j: int| 0 <= j < class.len() implies #[trigger] class[j] != ',' by {
            assert(class[j] == s[j]);
        }
    } else {
        assert forall|j: int| 0 <= j < s.len() implies #[trigger] s[j] != ',' by {
            if s[j] == ',' {
                assert(s.contains(','));
            }
        }
    }
}

/// On a line that starts with the prefix, the focus is the split of the rest.
proof fn lemma_focus_of_rest(line: Seq<char>)
    requires
        14 <= line.len(),
        line.take(14) == "activewindow>>"@,
    ensures
        line_focus(line) == Some(split_first(line.skip(14), ',')),
        line == "activewindow>>"@ + line.skip(14),
{
    let p = "activewindow>>"@;
    assert(p.len() == 14) by {
        reveal_strlit("activewindow>>");
    }
    assert(line =~= p + line.skip(14));
}

/// A line of the event socket announces a focus change exactly when it
/// starts with `activewindow>>`; the class is then the text after it up to
/// the first comma, and the title everything after that comma (empty when
/// there is none).
pub proof fn law_event_line_shape(line: Seq<char>)
    ensures
        line_focus(line) is Some <==> (14 <= line.len() && line.take(14) == "activewindow>>"@),
        line_focus(line) matches Some((class, title)) ==> (forall|j: int| 0 <= j < class.len() ==> class[j] != ',')
            && (line == "activewindow>>"@ + class + ","@ + title || (line == "activewindow>>"@ + class && title.len()
            == 0)),
{
    let p = "activewindow>>"@;
    assert(p.len() == 14) by {
        reveal_strlit("activewindow>>");
    }
    if 14 <= line.len() && line.take(14) == p {
        lemma_focus_of_rest(line);
        let rest = line.skip(14);
        lemma_split_first_comma(rest);
        assert(","@ =~= seq![',']) by {
            reveal_strlit(",");
        }
        let class = split_first(rest, ',').0;
        let title = split_first(rest, ',').1;
        if rest.contains(',') {
            assert(p + class + ","@ + title =~= p + (class + seq![','] + title));
        }
    }
}

} // verus!
