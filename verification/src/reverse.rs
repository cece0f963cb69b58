//! Reverse lookup: the host name in what a name server query prints.

use vstd::prelude::*;
use vstd::slice::slice_subrange;
use vstd::utf8::{decode_utf8, valid_utf8};

use crate::addr::IpAddr;
use crate::results::opt_view;
use crate::text::{
    eq_ignore_ascii_case, eq_ignore_ascii_case_chars, final_run_is_taken_off, from_chars, has_prefix,
    is_blank, is_run_of, is_tight, margins_of, to_chars, trim_chars, trim_end_matches_chars,
    trimming_takes_the_margins, white_space,
};

verus! {

/// The text that a byte string spells where every malformed part of it is
/// replaced.
pub uninterp spec fn utf8_lossy(bytes: Seq<u8>) -> Seq<char>;

/// `String::from_utf8_lossy`: decodes UTF-8 and puts the replacement character
/// in the place of what is malformed. Well-formed input is decoded as it is.
#[verifier::external_body]
fn decode_lossy(bytes: &[u8]) -> (r: String)
    ensures
        r@ == utf8_lossy(bytes@),
        valid_utf8(bytes@) ==> r@ == decode_utf8(bytes@),
{
    String::from_utf8_lossy(bytes).into_owned()
}

/// The length of the first line of `text`, without what ends it.
pub open spec fn line_end(text: Seq<char>) -> int
    decreases text.len(),
{
    if text.len() == 0 || text.first() == '\n' {
        0
    } else {
        1 + line_end(text.drop_first())
    }
}

/// The name that a line gives behind `label`, without the dots at its end: none
/// where the line does not begin so, where nothing follows, or where it is the
/// name that was not to be reported.
pub open spec fn answer(line: Seq<char>, label: Seq<char>, except: Option<Seq<char>>) -> Option<
    Seq<char>,
> {
    let body = crate::text::trim(line);
    if label.is_prefix_of(body) {
        let name = crate::text::trim(body.skip(label.len() as int));
        if name.len() == 0 || (except matches Some(own) && crate::text::eq_ignore_ascii_case(
            name,
            own,
        )) {
            None
        } else {
            Some(crate::text::trim_end_matches(name, '.'))
        }
    } else {
        None
    }
}

/// The answer of the first line that has one.
pub open spec fn first_answer(
    text: Seq<char>,
    label: Seq<char>,
    except: Option<Seq<char>>,
) -> Option<Seq<char>>
    decreases text.len(),
{
    if text.len() == 0 {
        None
    } else {
        let end = line_end(text);
        match answer(text.take(end), label, except) {
            Some(name) => Some(name),
            None => if 0 <= end < text.len() {
                first_answer(text.skip(end + 1), label, except)
            } else {
                None
            },
        }
    }
}

/// The host name in a report on the address with the text `ip`: a line labelled
/// `Name:` that does not repeat the address comes first, then one that begins
/// with `name =`.
pub open spec fn host_name(report: Seq<char>, ip: Seq<char>) -> Option<Seq<char>> {
    match first_answer(report, "Name:"@, Some(ip)) {
        Some(name) => Some(name),
        None => first_answer(report, "name ="@, None),
    }
}

proof fn lemma_line_end(text: Seq<char>)
    ensures
        0 <= line_end(text) <= text.len(),
    decreases text.len(),
{
    if text.len() > 0 && text.first() != '\n' {
        lemma_line_end(text.drop_first());
    }
}

/// The position where the line that begins at `from` ends.
fn find_line_end(text: &[char], from: usize) -> (r: usize)
    requires
        from <= text@.len(),
    ensures
        from <= r <= text@.len(),
        r == from + line_end(text@.skip(from as int)),
{
    let mut to: usize = from;
    while to < text.len() && text[to] != '\n'
        invariant
            from <= to <= text@.len(),
            to + line_end(text@.skip(to as int)) == from + line_end(text@.skip(from as int)),
        decreases text@.len() - to,
    {
        assert(text@.skip(to as int).drop_first() =~= text@.skip(to + 1));
        to = to + 1;
    }
    to
}

fn line_answer(line: &[char], label: &[char], except: Option<&[char]>) -> (r: Option<String>)
    ensures
        opt_view(r) == answer(line@, label@, opt_chars(except)),
{
    let body: &[char] = trim_chars(line);
    if !has_prefix(body, label) {
        return None;
    }
    let rest: &[char] = slice_subrange(body, label.len(), body.len());
    assert(rest@ =~= body@.skip(label@.len() as int));
    let name: &[char] = trim_chars(rest);
    if name.len() == 0 {
        return None;
    }
    if let Some(own) = except {
        if eq_ignore_ascii_case_chars(name, own) {
            return None;
        }
    }
    Some(from_chars(trim_end_matches_chars(name, '.')))
}

spec fn opt_chars(s: Option<&[char]>) -> Option<Seq<char>> {
    match s {
        Some(chars) => Some(chars@),
        None => None,
    }
}

fn find_answer(text: &[char], label: &[char], except: Option<&[char]>) -> (r: Option<String>)
    ensures
        opt_view(r) == first_answer(text@, label@, opt_chars(except)),
{
    let mut from: usize = 0;
    assert(text@.skip(0) =~= text@);
    while from < text.len()
        invariant
            from <= text@.len(),
            first_answer(text@, label@, opt_chars(except)) == first_answer(
                text@.skip(from as int),
                label@,
                opt_chars(except),
            ),
        decreases text@.len() - from,
    {
        let to: usize = find_line_end(text, from);
        let line: &[char] = slice_subrange(text, from, to);
        let ghost rest = text@.skip(from as int);
        assert(line@ =~= rest.take(to - from));
        let found: Option<String> = line_answer(line, label, except);
        if found.is_some() {
            return found;
        }
        if to >= text.len() {
            return None;
        }
        assert(rest.skip(to - from + 1) =~= text@.skip(to + 1));
        from = to + 1;
    }
    None
}

/// The host name in a report on the address with the text `ip`.
pub fn find_host_name(report: &str, ip: &str) -> (r: Option<String>)
    ensures
        opt_view(r) == host_name(report@, ip@),
{
    let text: Vec<char> = to_chars(report);
    let own: Vec<char> = to_chars(ip);
    let upper: Vec<char> = to_chars("Name:");
    let found: Option<String> = find_answer(
        text.as_slice(),
        upper.as_slice(),
        Some(own.as_slice()),
    );
    if found.is_some() {
        return found;
    }
    let lower: Vec<char> = to_chars("name =");
    find_answer(text.as_slice(), lower.as_slice(), None)
}

/// The host name of `ip` in what a name server query printed on its two output
/// streams.
pub fn reverse_dns(stdout: &[u8], stderr: &[u8], ip: IpAddr) -> (r: Option<String>)
    ensures
        opt_view(r) == host_name(
            utf8_lossy(stdout@) + "\n"@ + utf8_lossy(stderr@),
            crate::addr::ip_text(ip),
        ),
        valid_utf8(stdout@) && valid_utf8(stderr@) ==> opt_view(r) == host_name(
            decode_utf8(stdout@) + "\n"@ + decode_utf8(stderr@),
            crate::addr::ip_text(ip),
        ),
{
    let mut combined: String = decode_lossy(stdout);
    combined.append("\n");
    combined.append(decode_lossy(stderr).as_str());
    find_host_name(combined.as_str(), ip.to_text().as_str())
}

/// The host name that is reported never ends in a dot.
pub proof fn host_name_has_no_final_dot(report: Seq<char>, ip: Seq<char>, name: Seq<char>)
    requires
        host_name(report, ip) == Some(name),
    ensures
        name.len() > 0 ==> name.last() != '.',
{
    lemma_first_answer_undotted(report, "Name:"@, Some(ip));
    lemma_first_answer_undotted(report, "name ="@, None);
}

proof fn lemma_undotted(s: Seq<char>)
    ensures
        ({
            let t = crate::text::trim_end_matches(s, '.');
            t.len() > 0 ==> t.last() != '.'
        }),
    decreases s.len(),
{
    if s.len() > 0 && s.last() == '.' {
        lemma_undotted(s.drop_last());
    }
}

proof fn lemma_first_answer_undotted(text: Seq<char>, label: Seq<char>, except: Option<Seq<char>>)
    ensures
        first_answer(text, label, except) matches Some(name) ==> (name.len() > 0 ==> name.last()
            != '.'),
    decreases text.len(),
{
    if text.len() > 0 {
        let end = line_end(text);
        lemma_line_end(text);
        let body = crate::text::trim(text.take(end));
        lemma_undotted(crate::text::trim(body.skip(label.len() as int)));
        if end < text.len() {
            lemma_first_answer_undotted(text.skip(end + 1), label, except);
        }
    }
}

/// A carriage return at the end of a line does not change what it says, so a
/// report reads the same under either line ending.
pub proof fn carriage_return_is_immaterial(
    line: Seq<char>,
    label: Seq<char>,
    except: Option<Seq<char>>,
)
    ensures
        answer(line.push('\r'), label, except) == answer(line, label, except),
{
    crate::text::trim_ignores_final_white_space(line, '\r');
}

/// A line that reads label, white space, name, dots, with white space around it,
/// gives that very name, however long it is, unless what follows the label is the
/// name that was not to be reported. Where there are but dots the name is empty.
pub proof fn a_labelled_line_gives_its_name(
    front: Seq<char>,
    label: Seq<char>,
    gap: Seq<char>,
    name: Seq<char>,
    dots: Seq<char>,
    back: Seq<char>,
    except: Option<Seq<char>>,
)
    requires
        is_blank(front),
        label.len() > 0,
        !white_space(label[0]),
        is_blank(gap),
        name.len() + dots.len() > 0,
        is_tight(name),
        name.len() > 0 ==> name[name.len() - 1] != '.',
        is_run_of(dots, '.'),
        is_blank(back),
        except matches Some(own) ==> !eq_ignore_ascii_case(name + dots, own),
    ensures
        answer(front + label + gap + name + dots + back, label, except) == Some(name),
{
    let line = front + label + gap + name + dots + back;
    let body = label + gap + name + dots;
    assert(line =~= front + body + back);
    assert(is_tight(name + dots)) by {
        if dots.len() > 0 {
            assert(dots[0] == '.' && dots[dots.len() - 1] == '.');
        }
    }
    assert(is_tight(body)) by {
        assert(body[0] == label[0]);
        assert(body[body.len() - 1] == (name + dots)[(name + dots).len() - 1]);
    }
    trimming_takes_the_margins(front, body, back);
    let rest = body.skip(label.len() as int);
    assert(label =~= body.take(label.len() as int));
    let none = Seq::<char>::empty();
    assert(rest =~= gap + (name + dots) + none);
    trimming_takes_the_margins(gap, name + dots, none);
    final_run_is_taken_off(name, dots, '.');
}

/// A line with nothing behind its label gives no name, and neither does one that
/// repeats, in whatever case, the name that was not to be reported.
pub proof fn an_empty_or_repeated_name_is_passed_over(
    front: Seq<char>,
    label: Seq<char>,
    gap: Seq<char>,
    name: Seq<char>,
    back: Seq<char>,
    own: Seq<char>,
)
    requires
        is_blank(front),
        label.len() > 0,
        is_tight(label),
        is_blank(gap),
        is_tight(name),
        is_blank(back),
        name.len() == 0 || eq_ignore_ascii_case(name, own),
    ensures
        answer(front + label + gap + name + back, label, Some(own)) is None,
        name.len() == 0 ==> answer(front + label + gap + name + back, label, None) is None,
{
    let line = front + label + gap + name + back;
    let none = Seq::<char>::empty();
    if name.len() == 0 {
        assert(line =~= front + label + (gap + back));
        assert(is_blank(gap + back)) by {
            assert forall|i: int| 0 <= i < (gap + back).len() implies white_space(
                #[trigger] (gap + back)[i],
            ) by {
                if i < gap.len() {
                    assert((gap + back)[i] == gap[i]);
                } else {
                    assert((gap + back)[i] == back[i - gap.len()]);
                }
            }
        }
        trimming_takes_the_margins(front, label, gap + back);
        assert(label.skip(label.len() as int) =~= none);
        trimming_takes_the_margins(none, none, none);
        assert(none + none + none =~= none);
    } else {
        let body = label + gap + name;
        assert(line =~= front + body + back);
        trimming_takes_the_margins(front, body, back);
        assert(label =~= body.take(label.len() as int));
        assert(body.skip(label.len() as int) =~= gap + name + none);
        trimming_takes_the_margins(gap, name, none);
    }
}

/// A line that does not begin with the label, white space aside, gives no name.
pub proof fn a_line_without_the_label_gives_nothing(
    front: Seq<char>,
    rest: Seq<char>,
    label: Seq<char>,
    except: Option<Seq<char>>,
)
    requires
        is_blank(front),
        rest.len() > 0 ==> !white_space(rest[0]),
        label.len() > 0,
        !label.is_prefix_of(rest),
    ensures
        answer(front + rest, label, except) is None,
{
    let line = front + rest;
    let body = crate::text::trim(line);
    let (before, behind) = margins_of(line);
    if label.is_prefix_of(body) {
        assert(line[before.len() as int] == body[0]);
        if before.len() < front.len() {
            assert(line[before.len() as int] == front[before.len() as int]);
        }
        if before.len() > front.len() {
            assert(line[front.len() as int] == before[front.len() as int]);
            assert(line[front.len() as int] == rest[0]);
        }
        assert(label =~= rest.take(label.len() as int)) by {
            assert forall|i: int| 0 <= i < label.len() implies label[i] == rest[i] by {
                assert(label[i] == body[i]);
                assert(line[before.len() + i] == body[i]);
            }
        }
    }
}

/// The lines of a text are asked in turn: where the lines of `first` give no
/// name, those of `second` are asked.
pub proof fn lines_are_asked_in_turn(
    first: Seq<char>,
    second: Seq<char>,
    label: Seq<char>,
    except: Option<Seq<char>>,
)
    requires
        label.len() > 0,
    ensures
        first_answer(first + seq!['\n'] + second, label, except) == match first_answer(
            first,
            label,
            except,
        ) {
            Some(name) => Some(name),
            None => first_answer(second, label, except),
        },
    decreases first.len(),
{
    let both = first + seq!['\n'] + second;
    let end = line_end(first);
    lemma_line_end(first);
    lemma_line_end_of_both(first, second);
    assert(both.take(end) =~= first.take(end));
    if first.len() == 0 {
        assert(both.take(end) =~= Seq::<char>::empty());
        a_line_without_the_label_gives_nothing(
            Seq::empty(),
            Seq::empty(),
            label,
            except,
        );
        assert(Seq::<char>::empty() + Seq::<char>::empty() =~= Seq::<char>::empty());
    }
    if end < first.len() {
        assert(both.skip(end + 1) =~= first.skip(end + 1) + seq!['\n'] + second);
        lines_are_asked_in_turn(first.skip(end + 1), second, label, except);
    } else {
        assert(both.skip(end + 1) =~= second);
    }
}

proof fn lemma_line_end_of_both(first: Seq<char>, second: Seq<char>)
    ensures
        line_end(first + seq!['\n'] + second) == line_end(first),
    decreases first.len(),
{
    let both = first + seq!['\n'] + second;
    if first.len() == 0 {
        assert(both.first() == '\n');
    } else {
        assert(both.first() == first.first());
        assert(both.drop_first() =~= first.drop_first() + seq!['\n'] + second);
        lemma_line_end_of_both(first.drop_first(), second);
    }
}

/// A text of one line is asked as that line.
pub proof fn one_line_is_asked_as_it_is(line: Seq<char>, label: Seq<char>, except: Option<Seq<char>>)
    requires
        label.len() > 0,
        !line.contains('\n'),
    ensures
        first_answer(line, label, except) == answer(line, label, except),
{
    lemma_whole_line(line);
    assert(line.take(line.len() as int) =~= line);
    if line.len() == 0 {
        a_line_without_the_label_gives_nothing(Seq::empty(), line, label, except);
        assert(Seq::<char>::empty() + line =~= line);
    }
}

proof fn lemma_whole_line(line: Seq<char>)
    requires
        !line.contains('\n'),
    ensures
        line_end(line) == line.len(),
    decreases line.len(),
{
    if line.len() > 0 {
        assert(line[0] != '\n');
        assert(!line.drop_first().contains('\n')) by {
            if line.drop_first().contains('\n') {
                let k = choose|k: int|
                    0 <= k < line.drop_first().len() && line.drop_first()[k] == '\n';
                assert(line[k + 1] == '\n');
            }
        }
        lemma_whole_line(line.drop_first());
    }
}

/// `part` stands somewhere in `text`.
pub open spec fn occurs(part: Seq<char>, text: Seq<char>) -> bool {
    exists|i: int| 0 <= i <= text.len() && part.is_prefix_of(#[trigger] text.skip(i))
}

/// Lines in which the label does not stand give no name.
pub proof fn unlabelled_lines_give_nothing(
    text: Seq<char>,
    label: Seq<char>,
    except: Option<Seq<char>>,
)
    requires
        label.len() > 0,
        !occurs(label, text),
    ensures
        first_answer(text, label, except) is None,
    decreases text.len(),
{
    if text.len() > 0 {
        let end = line_end(text);
        lemma_line_end(text);
        let line = text.take(end);
        let body = crate::text::trim(line);
        let (before, behind) = margins_of(line);
        if label.is_prefix_of(body) {
            let at = before.len() as int;
            assert(label =~= text.skip(at).take(label.len() as int)) by {
                assert forall|i: int| 0 <= i < label.len() implies label[i] == text[at + i] by {
                    assert(label[i] == body[i]);
                    assert(line[at + i] == body[i]);
                }
            }
            assert(label.is_prefix_of(text.skip(at)));
        }
        if end < text.len() {
            let rest = text.skip(end + 1);
            if occurs(label, rest) {
                let i = choose|i: int|
                    0 <= i <= rest.len() && label.is_prefix_of(#[trigger] rest.skip(i));
                assert(rest.skip(i) =~= text.skip(end + 1 + i));
            }
            unlabelled_lines_give_nothing(rest, label, except);
        }
    }
}

/// A report: the lines before one line, that line, and the lines after it.
pub open spec fn around(
    before: Option<Seq<char>>,
    line: Seq<char>,
    after: Option<Seq<char>>,
) -> Seq<char> {
    let rest = match after {
        Some(lines) => line + seq!['\n'] + lines,
        None => line,
    };
    match before {
        Some(lines) => lines + seq!['\n'] + rest,
        None => rest,
    }
}

proof fn lemma_around(
    before: Option<Seq<char>>,
    line: Seq<char>,
    after: Option<Seq<char>>,
    label: Seq<char>,
    except: Option<Seq<char>>,
)
    requires
        label.len() > 0,
        !line.contains('\n'),
        answer(line, label, except) is Some,
        before matches Some(lines) ==> first_answer(lines, label, except) is None,
    ensures
        first_answer(around(before, line, after), label, except) == answer(line, label, except),
{
    let rest = around(None, line, after);
    one_line_is_asked_as_it_is(line, label, except);
    if let Some(lines) = after {
        lines_are_asked_in_turn(line, lines, label, except);
    }
    if let Some(lines) = before {
        lines_are_asked_in_turn(lines, rest, label, except);
    }
}

/// The first line labelled `Name:` that gives a name gives the host name, whole
/// and as it stands but for the dots at its end.
pub proof fn a_report_gives_the_labelled_name(
    report: &str,
    ip: &str,
    r: Option<String>,
    before: Option<Seq<char>>,
    front: Seq<char>,
    gap: Seq<char>,
    name: Seq<char>,
    dots: Seq<char>,
    back: Seq<char>,
    after: Option<Seq<char>>,
)
    requires
        call_ensures(find_host_name, (report, ip), r),
        report@ == around(before, front + "Name:"@ + gap + name + dots + back, after),
        before matches Some(lines) ==> first_answer(lines, "Name:"@, Some(ip@)) is None,
        is_blank(front) && is_blank(gap) && is_blank(back),
        !(front + gap + name + back).contains('\n'),
        name.len() + dots.len() > 0,
        is_tight(name),
        name.len() > 0 ==> name[name.len() - 1] != '.',
        is_run_of(dots, '.'),
        !eq_ignore_ascii_case(name + dots, ip@),
    ensures
        r matches Some(found) && found@ == name,
{
    reveal_strlit("Name:");
    let line = front + "Name:"@ + gap + name + dots + back;
    lemma_one_line(front, "Name:"@, gap, name, dots, back);
    a_labelled_line_gives_its_name(front, "Name:"@, gap, name, dots, back, Some(ip@));
    lemma_around(before, line, after, "Name:"@, Some(ip@));
    assert(host_name(report@, ip@) == Some(name));
}

/// Where no line labelled `Name:` gives one, the first that begins with `name =`
/// gives the host name, whole and as it stands but for the dots at its end.
pub proof fn a_report_gives_the_name_of_a_pointer(
    report: &str,
    ip: &str,
    r: Option<String>,
    before: Option<Seq<char>>,
    front: Seq<char>,
    gap: Seq<char>,
    name: Seq<char>,
    dots: Seq<char>,
    back: Seq<char>,
    after: Option<Seq<char>>,
)
    requires
        call_ensures(find_host_name, (report, ip), r),
        report@ == around(before, front + "name ="@ + gap + name + dots + back, after),
        first_answer(report@, "Name:"@, Some(ip@)) is None,
        before matches Some(lines) ==> first_answer(lines, "name ="@, None) is None,
        is_blank(front) && is_blank(gap) && is_blank(back),
        !(front + gap + name + back).contains('\n'),
        name.len() + dots.len() > 0,
        is_tight(name),
        name.len() > 0 ==> name[name.len() - 1] != '.',
        is_run_of(dots, '.'),
    ensures
        r matches Some(found) && found@ == name,
{
    reveal_strlit("Name:");
    reveal_strlit("name =");
    let line = front + "name ="@ + gap + name + dots + back;
    lemma_one_line(front, "name ="@, gap, name, dots, back);
    a_labelled_line_gives_its_name(front, "name ="@, gap, name, dots, back, None);
    lemma_around(before, line, after, "name ="@, None);
    assert(host_name(report@, ip@) == Some(name));
}

/// A report none of whose lines gives a name, under either label, gives no host
/// name; one that holds neither label is such a report.
pub proof fn a_report_without_names_gives_nothing(report: &str, ip: &str, r: Option<String>)
    requires
        call_ensures(find_host_name, (report, ip), r),
        first_answer(report@, "Name:"@, Some(ip@)) is None || !occurs("Name:"@, report@),
        first_answer(report@, "name ="@, None) is None || !occurs("name ="@, report@),
    ensures
        r is None,
{
    reveal_strlit("Name:");
    reveal_strlit("name =");
    if !occurs("Name:"@, report@) {
        unlabelled_lines_give_nothing(report@, "Name:"@, Some(ip@));
    }
    if !occurs("name ="@, report@) {
        unlabelled_lines_give_nothing(report@, "name ="@, None);
    }
    assert(host_name(report@, ip@) is None);
}

proof fn lemma_one_line(
    front: Seq<char>,
    label: Seq<char>,
    gap: Seq<char>,
    name: Seq<char>,
    dots: Seq<char>,
    back: Seq<char>,
)
    requires
        !(front + gap + name + back).contains('\n'),
        !label.contains('\n'),
        is_run_of(dots, '.'),
    ensures
        !(front + label + gap + name + dots + back).contains('\n'),
{
    let line = front + label + gap + name + dots + back;
    let kept = front + gap + name + back;
    if line.contains('\n') {
        let k = choose|k: int| 0 <= k < line.len() && line[k] == '\n';
        let a = front.len() as int;
        let b = a + label.len();
        let c = b + gap.len() + name.len();
        let d = c + dots.len();
        if k < a {
            assert(kept[k] == line[k]);
        } else if k < b {
            assert(label[k - a] == line[k]);
        } else if k < c {
            assert(kept[k - label.len()] == line[k]);
        } else if k < d {
            assert(dots[k - c] == line[k]);
        } else {
            assert(kept[k - label.len() - dots.len()] == line[k]);
        }
    }
}

/// What a query printed on its two streams is read as one report, the lines of
/// the first before those of the second.
pub proof fn streams_are_read_in_turn(
    stdout: &[u8],
    stderr: &[u8],
    ip: IpAddr,
    r: Option<String>,
    report: &str,
    own: &str,
    found: Option<String>,
)
    requires
        call_ensures(reverse_dns, (stdout, stderr, ip), r),
        call_ensures(find_host_name, (report, own), found),
        report@ == utf8_lossy(stdout@) + seq!['\n'] + utf8_lossy(stderr@),
        own@ == crate::addr::ip_text(ip),
    ensures
        opt_view(r) == opt_view(found),
{
    reveal_strlit("\n");
    assert("\n"@ =~= seq!['\n']);
}

} // verus!
