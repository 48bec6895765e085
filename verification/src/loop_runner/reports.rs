//! What an author's answer says of the task.
use vstd::prelude::*;

use crate::numbers::is_digit;
use crate::std_text::{uppercase, uppercased};
use crate::text::{begins, chars_of, first_n, first_n_of, lines, lines_of, starts_with, strip_leading, strip_leading_of, strip_prefix, text_of, texts, trim, trim_of};
use super::summaries::push_text;

verus! {

/// What an author says of the task.
#[derive(Clone, Copy, PartialEq, Eq, Structural, Debug)]
pub enum Status {
    Complete,
    Incomplete,
}

/// The status that a line gives; `upper` is the line in upper case.
pub open spec fn line_status(upper: Seq<char>) -> Option<Status> {
    if !begins(upper, "STATUS:"@) {
        None
    } else {
        let value = trim_of(upper.skip("STATUS:"@.len() as int));
        if begins(value, "COMPLETE"@) {
            Some(Status::Complete)
        } else if begins(value, "INCOMPLETE"@) {
            Some(Status::Incomplete)
        } else {
            None
        }
    }
}

/// The first status that the lines give.
pub open spec fn first_status(lines: Seq<Seq<char>>) -> Option<Status>
    decreases lines.len(),
{
    if lines.len() == 0 {
        None
    } else {
        match line_status(uppercased(trim_of(lines[0]))) {
            Some(s) => Some(s),
            None => first_status(lines.skip(1)),
        }
    }
}

/// The status that a line gives; `upper` is the line in upper case.
pub fn status_of_line(upper: &str) -> (r: Option<Status>)
    ensures
        r == line_status(upper@),
{
    match strip_prefix(upper, "STATUS:") {
        Some(rest) => {
            let value = trim(rest);
            if starts_with(value, "COMPLETE") {
                Some(Status::Complete)
            } else if starts_with(value, "INCOMPLETE") {
                Some(Status::Incomplete)
            } else {
                None
            }
        },
        None => None,
    }
}

/// The first status that an answer gives.
pub fn extract_status(final_text: &str) -> (r: Option<Status>)
    ensures
        r == first_status(lines_of(final_text@)),
{
    let all = lines(final_text);
    let ghost l = texts(all@);
    assert(l.skip(0) =~= l);
    for i in 0..all.len()
        invariant
            l == texts(all@),
            l == lines_of(final_text@),
            first_status(l) == first_status(l.skip(i as int)),
    {
        proof {
            assert(l.skip(i as int)[0] == all@[i as int]@);
            assert(l.skip(i as int).skip(1) =~= l.skip(i + 1));
        }
        let upper = uppercase(trim(all[i].as_str()));
        let status = status_of_line(upper.as_str());
        if status.is_some() {
            return status;
        }
    }
    assert(l.skip(all@.len() as int) =~= Seq::empty());
    None
}

// ---------------------------------------------------------------------------
// Next steps
// ---------------------------------------------------------------------------

/// How many digits a text begins with.
pub open spec fn leading_digits(s: Seq<char>) -> nat
    decreases s.len(),
{
    if s.len() > 0 && is_digit(s[0]) {
        1 + leading_digits(s.skip(1))
    } else {
        0
    }
}

/// What follows the number of an item, such as `1. ` or `12) `.
pub open spec fn numbered_item(s: Seq<char>) -> Option<Seq<char>> {
    let rest = s.skip(leading_digits(s) as int);
    if leading_digits(s) > 0 && (begins(rest, ". "@) || begins(rest, ") "@)) {
        Some(trim_of(rest.skip(2)))
    } else {
        None
    }
}

/// The item that a line gives: behind a dash, a star or a number.
pub open spec fn item_of(line: Seq<char>) -> Option<Seq<char>> {
    if begins(line, "-"@) || begins(line, "*"@) {
        Some(trim_of(strip_leading_of(line, "-* "@)))
    } else {
        numbered_item(line)
    }
}

/// The line begins the next steps; `upper` is the line in upper case.
pub open spec fn begins_steps(upper: Seq<char>) -> bool {
    begins(upper, "NEXT STEPS"@)
}

/// The items that the lines give, from the beginning of the next steps to a heading.
pub open spec fn items_in(lines: Seq<Seq<char>>, inside: bool) -> Seq<Seq<char>>
    decreases lines.len(),
{
    if lines.len() == 0 {
        Seq::empty()
    } else {
        let line = trim_of(lines[0]);
        let rest = lines.skip(1);
        if begins_steps(uppercased(line)) {
            items_in(rest, true)
        } else if !inside {
            items_in(rest, false)
        } else if begins(line, "#"@) {
            Seq::empty()
        } else {
            match item_of(line) {
                Some(item) => seq![item] + items_in(rest, true),
                None => items_in(rest, true),
            }
        }
    }
}

/// What follows the number of an item.
pub fn strip_numbered_bullet(s: &str) -> (r: Option<String>)
    ensures
        match r {
            Some(t) => numbered_item(s@) == Some(t@),
            None => numbered_item(s@) is None,
        },
{
    let v = chars_of(s);
    let n = v.len();
    let mut i: usize = 0;
    assert(s@.skip(0) =~= s@);
    while i < n && '0' <= v[i] && v[i] <= '9'
        invariant
            i <= n == v@.len(),
            v@ == s@,
            leading_digits(s@) == i + leading_digits(s@.skip(i as int)),
        decreases n - i,
    {
        assert(s@.skip(i as int).skip(1) =~= s@.skip(i + 1));
        i = i + 1;
    }
    if i == 0 {
        return None;
    }
    let rest = text_of(&v, i, n);
    assert(rest@ =~= s@.skip(i as int));
    proof {
        reveal_strlit(". ");
        reveal_strlit(") ");
        assert(". "@.len() == 2 && ") "@.len() == 2);
    }
    if let Some(t) = strip_prefix(rest.as_str(), ". ") {
        return Some(String::from_str(trim(t)));
    }
    match strip_prefix(rest.as_str(), ") ") {
        Some(t) => Some(String::from_str(trim(t))),
        None => None,
    }
}

/// The item that a line gives.
fn read_item(line: &str) -> (r: Option<String>)
    ensures
        match r {
            Some(t) => item_of(line@) == Some(t@),
            None => item_of(line@) is None,
        },
{
    if starts_with(line, "-") || starts_with(line, "*") {
        Some(String::from_str(trim(strip_leading(line, "-* "))))
    } else {
        strip_numbered_bullet(line)
    }
}

/// The next steps that an answer gives, five at most.
pub fn extract_pending_items(final_text: &str) -> (r: Vec<String>)
    ensures
        texts(r@) == first_n_of(items_in(lines_of(final_text@), false), 5),
{
    let all = lines(final_text);
    let ghost l = texts(all@);
    let mut items: Vec<String> = Vec::new();
    let mut inside = false;
    let mut i: usize = 0;
    assert(l.skip(0) =~= l);
    assert(texts(items@) + items_in(l, false) =~= items_in(l, false));
    while i < all.len()
        invariant_except_break
            i <= all@.len(),
            l == texts(all@),
            l == lines_of(final_text@),
            texts(items@) + items_in(l.skip(i as int), inside) == items_in(l, false),
        ensures
            texts(items@) == items_in(l, false),
        decreases all@.len() - i,
    {
        let ghost before = texts(items@);
        proof {
            assert(l.skip(i as int)[0] == all@[i as int]@);
            assert(l.skip(i as int).skip(1) =~= l.skip(i + 1));
        }
        let line = trim(all[i].as_str());
        let upper = uppercase(line);
        if starts_with(upper.as_str(), "NEXT STEPS") {
            inside = true;
        } else if inside {
            if starts_with(line, "#") {
                assert(before + Seq::empty() =~= before);
                break;
            }
            if let Some(item) = read_item(line) {
                let ghost it = item@;
                push_text(&mut items, item);
                assert(texts(items@) + items_in(l.skip(i + 1), true) =~= before + (seq![it] + items_in(
                    l.skip(i + 1),
                    true,
                )));
            }
        }
        i = i + 1;
        if i == all.len() {
            assert(l.skip(i as int) =~= Seq::empty());
            assert(texts(items@) + items_in(l.skip(i as int), inside) =~= texts(items@));
        }
    }
    first_n(&items, 5)
}

// ---------------------------------------------------------------------------
// Laws
// ---------------------------------------------------------------------------

/// No more than five next steps are taken from an answer, whatever it says.
pub proof fn law_no_more_than_five_steps(lines: Seq<Seq<char>>)
    ensures
        first_n_of(items_in(lines, false), 5).len() <= 5,
{
}

/// What stands before the next steps begin gives no items.
pub proof fn law_items_follow_the_heading(lines: Seq<Seq<char>>)
    requires
        forall|i: int| 0 <= i < lines.len() ==> !begins_steps(uppercased(trim_of(#[trigger] lines[i]))),
    ensures
        items_in(lines, false) == Seq::<Seq<char>>::empty(),
    decreases lines.len(),
{
    if lines.len() > 0 {
        let rest = lines.skip(1);
        assert forall|i: int| 0 <= i < rest.len() implies !begins_steps(uppercased(trim_of(#[trigger] rest[i]))) by {
            assert(rest[i] == lines[i + 1]);
        }
        assert(!begins_steps(uppercased(trim_of(lines[0]))));
        law_items_follow_the_heading(rest);
    }
}

/// The first line that gives a status decides: what follows it does not matter.
pub proof fn law_first_status_decides(before: Seq<Seq<char>>, after: Seq<Seq<char>>)
    requires
        first_status(before) is Some,
    ensures
        first_status(before + after) == first_status(before),
    decreases before.len(),
{
    if before.len() > 0 {
        assert((before + after)[0] == before[0]);
        assert((before + after).skip(1) =~= before.skip(1) + after);
        if line_status(uppercased(trim_of(before[0]))) is None {
            law_first_status_decides(before.skip(1), after);
        }
    }
}

/// A line without a status is passed over, however many there are.
pub proof fn law_lines_without_status_are_passed(before: Seq<Seq<char>>, after: Seq<Seq<char>>)
    requires
        forall|i: int| 0 <= i < before.len() ==> line_status(uppercased(trim_of(#[trigger] before[i]))) is None,
    ensures
        first_status(before + after) == first_status(after),
        first_status(before) is None,
    decreases before.len(),
{
    if before.len() == 0 {
        assert(before + after =~= after);
    } else {
        let rest = before.skip(1);
        assert(line_status(uppercased(trim_of(before[0]))) is None);
        assert((before + after)[0] == before[0]);
        assert((before + after).skip(1) =~= rest + after);
        assert forall|i: int| 0 <= i < rest.len() implies line_status(uppercased(trim_of(#[trigger] rest[i]))) is None by {
            assert(rest[i] == before[i + 1]);
        }
        law_lines_without_status_are_passed(rest, after);
    }
}

/// A status line gives the status that it names, behind white space and before whatever
/// follows; no other line gives one.
pub proof fn law_status_is_what_the_line_names(value: Seq<char>, other: Seq<char>)
    ensures
        line_status("STATUS:"@ + value) == Some(Status::Complete) <==> begins(trim_of(value), "COMPLETE"@),
        line_status("STATUS:"@ + value) == Some(Status::Incomplete) <==> begins(trim_of(value), "INCOMPLETE"@),
        !begins(other, "STATUS:"@) ==> line_status(other) is None,
{
    reveal_strlit("COMPLETE");
    reveal_strlit("INCOMPLETE");
    let head = "STATUS:"@;
    let line = head + value;
    assert(line.take(head.len() as int) =~= head);
    assert(line.skip(head.len() as int) =~= value);
    let v = trim_of(value);
    if begins(v, "COMPLETE"@) && begins(v, "INCOMPLETE"@) {
        assert(v.take(8)[0] == 'C');
        assert(v.take(10)[0] == 'I');
    }
}

/// All items below the heading are taken, in order, up to a line that is a heading of its
/// own; what follows that line gives none.
pub proof fn law_every_step_is_taken(
    before: Seq<Seq<char>>,
    heading: Seq<char>,
    body: Seq<Seq<char>>,
    end: Seq<char>,
    after: Seq<Seq<char>>,
)
    requires
        forall|i: int| 0 <= i < before.len() ==> !begins_steps(uppercased(trim_of(#[trigger] before[i]))),
        begins_steps(uppercased(trim_of(heading))),
        forall|i: int|
            0 <= i < body.len() ==> !begins_steps(uppercased(trim_of(#[trigger] body[i]))) && !begins(
                trim_of(body[i]),
                "#"@,
            ),
        begins(trim_of(end), "#"@),
        !begins_steps(uppercased(trim_of(end))),
    ensures
        items_in(before + seq![heading] + body, false) == body.filter_map(|l: Seq<char>| item_of(trim_of(l))),
        items_in(before + seq![heading] + body + seq![end] + after, false) == body.filter_map(
            |l: Seq<char>| item_of(trim_of(l)),
        ),
    decreases before.len(),
{
    let all = before + seq![heading] + body;
    let more = all + seq![end] + after;
    if before.len() == 0 {
        assert(all[0] == heading && more[0] == heading);
        assert(all.skip(1) =~= body + Seq::<Seq<char>>::empty());
        assert(more.skip(1) =~= body + (seq![end] + after));
        lemma_steps(body, Seq::empty());
        lemma_steps(body, seq![end] + after);
        assert((seq![end] + after)[0] == end);
        let items = body.filter_map(|l: Seq<char>| item_of(trim_of(l)));
        assert(items + items_in(Seq::empty(), true) =~= items);
        assert(items + items_in(seq![end] + after, true) =~= items);
    } else {
        let rest = before.skip(1);
        assert(all[0] == before[0] && more[0] == before[0]);
        assert(!begins_steps(uppercased(trim_of(before[0]))));
        assert(all.skip(1) =~= rest + seq![heading] + body);
        assert(more.skip(1) =~= rest + seq![heading] + body + seq![end] + after);
        assert forall|i: int| 0 <= i < rest.len() implies !begins_steps(uppercased(trim_of(#[trigger] rest[i]))) by {
            assert(rest[i] == before[i + 1]);
        }
        law_every_step_is_taken(rest, heading, body, end, after);
    }
}

/// Lines that are no headings give their items, before those of the lines behind.
proof fn lemma_steps(body: Seq<Seq<char>>, rest: Seq<Seq<char>>)
    requires
        forall|i: int|
            0 <= i < body.len() ==> !begins_steps(uppercased(trim_of(#[trigger] body[i]))) && !begins(
                trim_of(body[i]),
                "#"@,
            ),
    ensures
        items_in(body + rest, true) == body.filter_map(|l: Seq<char>| item_of(trim_of(l))) + items_in(rest, true),
    decreases body.len(),
{
    let f = |l: Seq<char>| item_of(trim_of(l));
    if body.len() == 0 {
        assert(body + rest =~= rest);
        assert(body.filter_map(f) + items_in(rest, true) =~= items_in(rest, true));
    } else {
        let front = body.drop_last();
        let last = body.last();
        assert(body[body.len() - 1] == last);
        assert forall|i: int| 0 <= i < front.len() implies !begins_steps(uppercased(trim_of(#[trigger] front[i])))
            && !begins(trim_of(front[i]), "#"@) by {
            assert(front[i] == body[i]);
        }
        lemma_steps(front, seq![last] + rest);
        assert(front + (seq![last] + rest) =~= body + rest);
        assert((seq![last] + rest)[0] == last);
        assert((seq![last] + rest).skip(1) =~= rest);
        match item_of(trim_of(last)) {
            Some(item) => {
                assert(body.filter_map(f) =~= front.filter_map(f).push(item));
                assert(front.filter_map(f) + (seq![item] + items_in(rest, true)) =~= body.filter_map(f) + items_in(
                    rest,
                    true,
                ));
            },
            None => {
                assert(body.filter_map(f) =~= front.filter_map(f));
            },
        }
    }
}

/// An item behind a number of any length is what follows the dot or the bracket.
pub proof fn law_numbered_item_is_read(digits: Seq<char>, text: Seq<char>)
    requires
        digits.len() > 0,
        forall|i: int| 0 <= i < digits.len() ==> is_digit(#[trigger] digits[i]),
    ensures
        numbered_item(digits + ". "@ + text) == Some(trim_of(text)),
        numbered_item(digits + ") "@ + text) == Some(trim_of(text)),
        item_of(digits + ". "@ + text) == Some(trim_of(text)),
        text.len() == 0 || !is_digit(text[0]) ==> numbered_item(text) is None,
{
    reveal_strlit(". ");
    reveal_strlit(") ");
    reveal_strlit("-");
    reveal_strlit("*");
    let a = digits + ". "@ + text;
    let b = digits + ") "@ + text;
    let n = digits.len() as int;
    assert(a =~= digits + (". "@ + text));
    assert(b =~= digits + (") "@ + text));
    lemma_leading_digits(digits, ". "@ + text);
    lemma_leading_digits(digits, ") "@ + text);
    assert(a.skip(n) =~= ". "@ + text);
    assert(b.skip(n) =~= ") "@ + text);
    assert((". "@ + text).take(2) =~= ". "@);
    assert((") "@ + text).take(2) =~= ") "@);
    assert((". "@ + text).skip(2) =~= text);
    assert((") "@ + text).skip(2) =~= text);
    assert(is_digit(digits[0]));
    assert(a.take(1)[0] == digits[0]);
    assert("-"@[0] == '-' && "*"@[0] == '*');
}

proof fn lemma_leading_digits(digits: Seq<char>, rest: Seq<char>)
    requires
        forall|i: int| 0 <= i < digits.len() ==> is_digit(#[trigger] digits[i]),
        rest.len() == 0 || !is_digit(rest[0]),
    ensures
        leading_digits(digits + rest) == digits.len(),
    decreases digits.len(),
{
    let s = digits + rest;
    if digits.len() == 0 {
        assert(s =~= rest);
    } else {
        assert(is_digit(digits[0]));
        assert(s[0] == digits[0]);
        assert(s.skip(1) =~= digits.skip(1) + rest);
        lemma_leading_digits(digits.skip(1), rest);
    }
}

/// An item behind a dash or a star is what follows it.
pub proof fn law_marked_item_is_read(text: Seq<char>)
    requires
        text.len() > 0,
        text[0] != '-' && text[0] != '*' && text[0] != ' ',
    ensures
        item_of("- "@ + text) == Some(trim_of(text)),
        item_of("* "@ + text) == Some(trim_of(text)),
        item_of(text) == numbered_item(text),
{
    reveal_strlit("- ");
    reveal_strlit("* ");
    reveal_strlit("-");
    reveal_strlit("*");
    reveal_strlit("-* ");
    let a = "- "@ + text;
    let b = "* "@ + text;
    let set = "-* "@;
    assert(set[0] == '-' && set[1] == '*' && set[2] == ' ');
    assert(a.take(1) =~= "-"@);
    assert(b.take(1) =~= "*"@);
    assert(text.take(1)[0] == text[0]);
    assert(set.contains(a[0]) && set.contains(b[0]));
    assert(set.contains(a.skip(1)[0]) && set.contains(b.skip(1)[0]));
    assert(a.skip(1).skip(1) =~= text);
    assert(b.skip(1).skip(1) =~= text);
    assert(!set.contains(text[0]));
    reveal_with_fuel(strip_leading_of, 4);
}

} // verus!
