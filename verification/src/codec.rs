//! The text form of a task sequence.
//!
//! A whole task sequence is kept in one text column. The text is a compact
//! JSON array of objects, each with the string member `name` followed by the
//! boolean member `done`:
//!
//! ```text
//! [{"name":"milk","done":false},{"name":"eggs","done":true}]
//! ```
//!
//! [`encode`] writes exactly this form and [`decode`] reads exactly this form
//! back: whatever `encode` produced decodes to the sequence it was given, and
//! any other text decodes to the empty sequence.

use crate::task::{task_views, Task, TaskView};
use vstd::prelude::*;
use vstd::string::StringExecFns;

verus! {

/// `String::push` appends the given character to the end of the string.
pub assume_specification[ String::push ](s: &mut String, c: char)
    ensures
        final(s)@ == old(s)@.push(c),
;

/// The hexadecimal digit, in lower case, of a value below sixteen.
pub open spec fn hex_digit(n: int) -> char {
    if n < 10 {
        ('0' as int + n) as char
    } else {
        ('a' as int + n - 10) as char
    }
}

/// Whether a character has one of the two-character escapes `\b \t \n \f \r`.
pub open spec fn has_short_escape(c: char) -> bool {
    c == '\u{8}' || c == '\t' || c == '\n' || c == '\u{c}' || c == '\r'
}

/// How one character of a name is written inside the quotes.
///
/// The quote and the backslash are preceded by a backslash, the control
/// characters below U+0020 are written as `\b \t \n \f \r` or as `\u00` and
/// two hexadecimal digits, and every other character stands for itself.
pub open spec fn escape_char(c: char) -> Seq<char> {
    if c == '"' {
        seq!['\\', '"']
    } else if c == '\\' {
        seq!['\\', '\\']
    } else if c == '\u{8}' {
        seq!['\\', 'b']
    } else if c == '\t' {
        seq!['\\', 't']
    } else if c == '\n' {
        seq!['\\', 'n']
    } else if c == '\u{c}' {
        seq!['\\', 'f']
    } else if c == '\r' {
        seq!['\\', 'r']
    } else if (c as int) < 0x20 {
        seq!['\\', 'u', '0', '0', hex_digit(c as int / 16), hex_digit(c as int % 16)]
    } else {
        seq![c]
    }
}

/// A name with every character escaped.
pub open spec fn escape(name: Seq<char>) -> Seq<char>
    decreases name.len(),
{
    if name.len() == 0 {
        Seq::empty()
    } else {
        escape_char(name[0]) + escape(name.drop_first())
    }
}

/// The text of a completion flag.
pub open spec fn flag_text(done: bool) -> Seq<char> {
    if done {
        "true"@
    } else {
        "false"@
    }
}

/// The text of one task.
pub open spec fn encode_task(task: TaskView) -> Seq<char> {
    "{\"name\":\""@ + escape(task.name) + "\",\"done\":"@ + flag_text(task.done) + "}"@
}

/// The texts of one or more tasks, separated by commas.
pub open spec fn encode_items(tasks: Seq<TaskView>) -> Seq<char>
    decreases tasks.len(),
{
    if tasks.len() == 0 {
        Seq::empty()
    } else if tasks.len() == 1 {
        encode_task(tasks[0])
    } else {
        encode_task(tasks[0]) + seq![','] + encode_items(tasks.drop_first())
    }
}

/// The text of a task sequence.
pub open spec fn encode_tasks(tasks: Seq<TaskView>) -> Seq<char> {
    seq!['['] + encode_items(tasks) + seq![']']
}

/// Whether `text` is the text of some task sequence.
pub open spec fn is_encoding(text: Seq<char>) -> bool {
    exists|tasks: Seq<TaskView>| encode_tasks(tasks) == text
}

/// The task sequence that a stored text stands for: the sequence whose text
/// it is, and the empty sequence for every other text.
pub open spec fn decode_tasks(text: Seq<char>) -> Seq<TaskView> {
    if is_encoding(text) {
        choose|tasks: Seq<TaskView>| encode_tasks(tasks) == text
    } else {
        Seq::empty()
    }
}

/// Escaping goes character by character, so a name that grows by one
/// character grows its escaped text by that character's escape.
proof fn lemma_escape_push(name: Seq<char>, c: char)
    ensures
        escape(name.push(c)) == escape(name) + escape_char(c),
    decreases name.len(),
{
    if name.len() == 0 {
        assert(name.push(c).drop_first() =~= Seq::<char>::empty());
        assert(escape(name.push(c).drop_first()) =~= Seq::<char>::empty());
        assert(escape(name) =~= Seq::<char>::empty());
        assert(escape(name.push(c)) =~= escape(name) + escape_char(c));
    } else {
        assert(name.push(c).drop_first() =~= name.drop_first().push(c));
        lemma_escape_push(name.drop_first(), c);
        assert(escape(name.push(c)) =~= escape(name) + escape_char(c));
    }
}

/// A non-empty run of tasks that grows by one task grows its text by a comma
/// and that task's text.
proof fn lemma_encode_items_push(tasks: Seq<TaskView>, task: TaskView)
    requires
        tasks.len() > 0,
    ensures
        encode_items(tasks.push(task)) == encode_items(tasks) + seq![','] + encode_task(task),
    decreases tasks.len(),
{
    let grown = tasks.push(task);
    if tasks.len() == 1 {
        assert(grown.drop_first() =~= seq![task]);
        assert(encode_items(grown.drop_first()) == encode_task(task));
    } else {
        assert(grown.drop_first() =~= tasks.drop_first().push(task));
        lemma_encode_items_push(tasks.drop_first(), task);
        assert(encode_items(grown) =~= encode_items(tasks) + seq![','] + encode_task(task));
    }
}

fn hex_digit_char(n: u8) -> (c: char)
    requires
        n < 16,
    ensures
        c == hex_digit(n as int),
{
    if n < 10 {
        (48u8 + n) as char
    } else {
        (97u8 + (n - 10)) as char
    }
}

/// Appends the escape of `c` to `out`.
fn push_escaped_char(out: &mut String, c: char)
    ensures
        final(out)@ == old(out)@ + escape_char(c),
{
    let code: u32 = c as u32;
    if c == '"' {
        out.push('\\');
        out.push('"');
    } else if c == '\\' {
        out.push('\\');
        out.push('\\');
    } else if c == '\u{8}' {
        out.push('\\');
        out.push('b');
    } else if c == '\t' {
        out.push('\\');
        out.push('t');
    } else if c == '\n' {
        out.push('\\');
        out.push('n');
    } else if c == '\u{c}' {
        out.push('\\');
        out.push('f');
    } else if c == '\r' {
        out.push('\\');
        out.push('r');
    } else if code < 0x20 {
        out.push('\\');
        out.push('u');
        out.push('0');
        out.push('0');
        out.push(hex_digit_char((code / 16) as u8));
        out.push(hex_digit_char((code % 16) as u8));
    } else {
        out.push(c);
    }
    assert(out@ =~= old(out)@ + escape_char(c));
}

/// Appends the escaped text of `name` to `out`.
fn push_escaped(out: &mut String, name: &str)
    ensures
        final(out)@ == old(out)@ + escape(name@),
{
    let chars = chars_of(name);
    let mut i: usize = 0;
    while i < chars.len()
        invariant
            i <= chars.len(),
            chars@ == name@,
            out@ == old(out)@ + escape(chars@.take(i as int)),
        decreases chars.len() - i,
    {
        proof {
            lemma_escape_push(chars@.take(i as int), chars[i as int]);
            assert(chars@.take(i as int).push(chars[i as int]) =~= chars@.take(i + 1));
        }
        push_escaped_char(out, chars[i]);
        i += 1;
        assert(out@ =~= old(out)@ + escape(chars@.take(i as int)));
    }
    assert(chars@.take(i as int) =~= name@);
}

/// The characters of a text, in order.
fn chars_of(text: &str) -> (chars: Vec<char>)
    ensures
        chars@ == text@,
{
    let mut chars: Vec<char> = Vec::new();
    for c in it: text.chars()
        invariant
            it.seq() == text@,
            chars@ == it.seq().take(it.index()),
    {
        chars.push(c);
        assert(chars@ =~= it.seq().take(it.index() + 1));
    }
    assert(chars@ =~= text@);
    chars
}

/// Appends the text of one task to `out`.
fn push_task(out: &mut String, task: &Task)
    ensures
        final(out)@ == old(out)@ + encode_task(task@),
{
    out.append("{\"name\":\"");
    push_escaped(out, task.name.as_str());
    out.append("\",\"done\":");
    if task.done {
        out.append("true");
    } else {
        out.append("false");
    }
    out.append("}");
    assert(out@ =~= old(out)@ + encode_task(task@));
}

/// Writes a task sequence as text.
pub fn encode(tasks: &Vec<Task>) -> (text: String)
    ensures
        text@ == encode_tasks(task_views(tasks@)),
{
    let ghost views = task_views(tasks@);
    let mut out = String::new();
    out.push('[');
    let mut i: usize = 0;
    while i < tasks.len()
        invariant
            i <= tasks.len(),
            views == task_views(tasks@),
            out@ == seq!['['] + encode_items(views.take(i as int)),
        decreases tasks.len() - i,
    {
        let ghost before = views.take(i as int);
        if i > 0 {
            out.push(',');
        }
        push_task(&mut out, &tasks[i]);
        proof {
            assert(before.push(tasks[i as int]@) =~= views.take(i + 1));
            if i > 0 {
                lemma_encode_items_push(before, tasks[i as int]@);
            }
            assert(out@ =~= seq!['['] + encode_items(views.take(i + 1)));
        }
        i += 1;
    }
    assert(views.take(i as int) =~= views);
    out.push(']');
    assert(out@ =~= encode_tasks(views));
    out
}

/// Whether a character is a hexadecimal digit in lower case.
spec fn is_hex_digit(c: char) -> bool {
    ('0' <= c && c <= '9') || ('a' <= c && c <= 'f')
}

/// The value of a hexadecimal digit in lower case.
spec fn hex_value(c: char) -> int {
    if c <= '9' {
        c as int - '0' as int
    } else {
        c as int - 'a' as int + 10
    }
}

/// Reads one escaped character from the front of `s`: the character it
/// stands for and how many characters of text it took. Only the escapes that
/// [`escape_char`] writes are read.
spec fn read_unit(s: Seq<char>) -> Option<(char, int)> {
    if s.len() == 0 {
        None
    } else if s[0] == '\\' {
        if s.len() < 2 {
            None
        } else if s[1] == '"' {
            Some(('"', 2))
        } else if s[1] == '\\' {
            Some(('\\', 2))
        } else if s[1] == 'b' {
            Some(('\u{8}', 2))
        } else if s[1] == 't' {
            Some(('\t', 2))
        } else if s[1] == 'n' {
            Some(('\n', 2))
        } else if s[1] == 'f' {
            Some(('\u{c}', 2))
        } else if s[1] == 'r' {
            Some(('\r', 2))
        } else if s[1] == 'u' {
            if s.len() >= 6 && s[2] == '0' && s[3] == '0' && (s[4] == '0' || s[4] == '1')
                && is_hex_digit(s[5]) {
                let c = (16 * hex_value(s[4]) + hex_value(s[5])) as char;
                if has_short_escape(c) {
                    None
                } else {
                    Some((c, 6))
                }
            } else {
                None
            }
        } else {
            None
        }
    } else if s[0] == '"' || (s[0] as int) < 0x20 {
        None
    } else {
        Some((s[0], 1))
    }
}

/// Reads an escaped name up to and including the closing quote: the name and
/// the text that follows the quote.
spec fn read_name(s: Seq<char>) -> Option<(Seq<char>, Seq<char>)>
    decreases s.len(),
{
    if s.len() == 0 {
        None
    } else if s[0] == '"' {
        Some((Seq::empty(), s.skip(1)))
    } else {
        match read_unit(s) {
            None => None,
            Some((c, n)) => {
                if 0 < n <= s.len() {
                    match read_name(s.skip(n)) {
                        None => None,
                        Some((more, rest)) => Some((seq![c] + more, rest)),
                    }
                } else {
                    None
                }
            },
        }
    }
}

/// The text that follows `literal` at the front of `s`, if `s` starts with it.
spec fn skip_literal(s: Seq<char>, literal: Seq<char>) -> Option<Seq<char>> {
    if literal.is_prefix_of(s) {
        Some(s.skip(literal.len() as int))
    } else {
        None
    }
}

/// Reads a completion flag and gives the text that follows it.
spec fn read_flag(s: Seq<char>) -> Option<(bool, Seq<char>)> {
    match skip_literal(s, "true"@) {
        Some(rest) => Some((true, rest)),
        None => match skip_literal(s, "false"@) {
            Some(rest) => Some((false, rest)),
            None => None,
        },
    }
}

/// Reads one task and gives the text that follows it.
#[verifier::opaque]
spec fn read_task(s: Seq<char>) -> Option<(TaskView, Seq<char>)> {
    match skip_literal(s, "{\"name\":\""@) {
        None => None,
        Some(s1) => match read_name(s1) {
            None => None,
            Some((name, s2)) => match skip_literal(s2, ",\"done\":"@) {
                None => None,
                Some(s3) => match read_flag(s3) {
                    None => None,
                    Some((done, s4)) => match skip_literal(s4, "}"@) {
                        None => None,
                        Some(rest) => Some((TaskView { name, done }, rest)),
                    },
                },
            },
        },
    }
}

/// Reads one or more tasks separated by commas, the closing bracket and the
/// end of the text.
spec fn read_items(s: Seq<char>) -> Option<Seq<TaskView>>
    decreases s.len(),
{
    match read_task(s) {
        None => None,
        Some((task, rest)) => {
            if rest.len() >= s.len() {
                None
            } else if rest.len() == 1 && rest[0] == ']' {
                Some(seq![task])
            } else if rest.len() > 1 && rest[0] == ',' {
                match read_items(rest.skip(1)) {
                    None => None,
                    Some(more) => Some(seq![task] + more),
                }
            } else {
                None
            }
        },
    }
}

/// Reads a whole text: `None` unless it has the form that [`encode_tasks`]
/// writes.
spec fn read_tasks(s: Seq<char>) -> Option<Seq<TaskView>> {
    if s.len() < 2 || s[0] != '[' {
        None
    } else if s[1] == ']' {
        if s.len() == 2 {
            Some(Seq::empty())
        } else {
            None
        }
    } else {
        read_items(s.skip(1))
    }
}

fn hex_value_of(c: char) -> (value: Option<u32>)
    ensures
        is_hex_digit(c) ==> value == Some(hex_value(c) as u32) && 0 <= hex_value(c) < 16,
        !is_hex_digit(c) ==> value is None,
{
    let code: u32 = c as u32;
    if 48 <= code && code <= 57 {
        Some(code - 48)
    } else if 97 <= code && code <= 102 {
        Some(code - 97 + 10)
    } else {
        None
    }
}

/// Whether a character lies below U+0020.
fn is_control(c: char) -> (below: bool)
    ensures
        below == ((c as int) < 0x20),
{
    (c as u32) < 0x20
}

/// The character with a code below U+0020.
fn control_char(code: u32) -> (c: char)
    requires
        code < 0x20,
    ensures
        c as int == code,
{
    (code as u8) as char
}

fn scan_unit(chars: &Vec<char>, at: usize) -> (found: Option<(char, usize)>)
    requires
        at <= chars.len(),
    ensures
        match read_unit(chars@.skip(at as int)) {
            Some((c, n)) => found == Some((c, (at + n) as usize)) && 0 < n && at + n
                <= chars.len(),
            None => found is None,
        },
{
    let ghost s = chars@.skip(at as int);
    let left: usize = chars.len() - at;
    if left == 0 {
        return None;
    }
    let first = chars[at];
    assert(s[0] == first);
    if first == '\\' {
        if left < 2 {
            return None;
        }
        let second = chars[at + 1];
        assert(s[1] == second);
        if second == '"' {
            return Some(('"', at + 2));
        } else if second == '\\' {
            return Some(('\\', at + 2));
        } else if second == 'b' {
            return Some(('\u{8}', at + 2));
        } else if second == 't' {
            return Some(('\t', at + 2));
        } else if second == 'n' {
            return Some(('\n', at + 2));
        } else if second == 'f' {
            return Some(('\u{c}', at + 2));
        } else if second == 'r' {
            return Some(('\r', at + 2));
        } else if second == 'u' {
            if left < 6 {
                return None;
            }
            assert(s[2] == chars[at + 2] && s[3] == chars[at + 3] && s[4] == chars[at + 4] && s[5]
                == chars[at + 5]);
            if chars[at + 2] != '0' || chars[at + 3] != '0' {
                return None;
            }
            let high = chars[at + 4];
            if high != '0' && high != '1' {
                return None;
            }
            let high_value: u32 = if high == '0' {
                0
            } else {
                1
            };
            match hex_value_of(chars[at + 5]) {
                None => {
                    return None;
                },
                Some(low_value) => {
                    let c = control_char(16 * high_value + low_value);
                    if c == '\u{8}' || c == '\t' || c == '\n' || c == '\u{c}' || c == '\r' {
                        return None;
                    } else {
                        return Some((c, at + 6));
                    }
                },
            }
        } else {
            return None;
        }
    } else if first == '"' || is_control(first) {
        return None;
    } else {
        return Some((first, at + 1));
    }
}

/// What a name read so far and the reading of the rest amount to.
spec fn name_after(read: Seq<char>, rest: Option<(Seq<char>, Seq<char>)>) -> Option<
    (Seq<char>, Seq<char>),
> {
    match rest {
        None => None,
        Some((more, after)) => Some((read + more, after)),
    }
}

fn scan_name(chars: &Vec<char>, at: usize) -> (found: Option<(String, usize)>)
    requires
        at <= chars.len(),
    ensures
        match read_name(chars@.skip(at as int)) {
            Some((name, rest)) => found matches Some((read, end)) && read@ == name && end
                <= chars.len() && rest == chars@.skip(end as int),
            None => found is None,
        },
{
    let ghost whole = read_name(chars@.skip(at as int));
    let mut name = String::new();
    let mut i: usize = at;
    assert(name_after(name@, read_name(chars@.skip(i as int))) =~= whole);
    loop
        invariant
            at <= i <= chars.len(),
            whole == read_name(chars@.skip(at as int)),
            whole == name_after(name@, read_name(chars@.skip(i as int))),
        decreases chars.len() - i,
    {
        let ghost s = chars@.skip(i as int);
        if i >= chars.len() {
            return None;
        }
        assert(s[0] == chars[i as int]);
        if chars[i] == '"' {
            assert(s.skip(1) =~= chars@.skip(i + 1));
            assert(name@ + Seq::<char>::empty() =~= name@);
            return Some((name, i + 1));
        }
        match scan_unit(chars, i) {
            None => {
                return None;
            },
            Some((c, next)) => {
                let ghost n = next - i;
                assert(s.skip(n) =~= chars@.skip(next as int));
                let ghost before = name@;
                name.push(c);
                proof {
                    let tail = read_name(chars@.skip(next as int));
                    match tail {
                        None => {},
                        Some((more, after)) => {
                            assert(before + (seq![c] + more) =~= before.push(c) + more);
                        },
                    }
                }
                i = next;
            },
        }
    }
}

fn scan_literal(chars: &Vec<char>, at: usize, literal: &str) -> (found: Option<usize>)
    requires
        at <= chars.len(),
    ensures
        match skip_literal(chars@.skip(at as int), literal@) {
            Some(rest) => found matches Some(end) && end == at + literal@.len() && end
                <= chars.len() && rest == chars@.skip(end as int),
            None => found is None,
        },
{
    let ghost s = chars@.skip(at as int);
    let wanted = chars_of(literal);
    if wanted.len() > chars.len() - at {
        return None;
    }
    let mut k: usize = 0;
    while k < wanted.len()
        invariant
            k <= wanted.len(),
            at + wanted.len() <= chars.len(),
            s == chars@.skip(at as int),
            wanted@ == literal@,
            forall|j: int| 0 <= j < k ==> wanted[j] == s[j],
        decreases wanted.len() - k,
    {
        if wanted[k] != chars[at + k] {
            assert(s[k as int] == chars[at + k]);
            return None;
        }
        assert(s[k as int] == chars[at + k]);
        k += 1;
    }
    assert(s.skip(wanted.len() as int) =~= chars@.skip(at + wanted.len()));
    Some(at + wanted.len())
}

fn scan_flag(chars: &Vec<char>, at: usize) -> (found: Option<(bool, usize)>)
    requires
        at <= chars.len(),
    ensures
        match read_flag(chars@.skip(at as int)) {
            Some((done, rest)) => found matches Some((flag, end)) && flag == done && end
                <= chars.len() && rest == chars@.skip(end as int),
            None => found is None,
        },
{
    match scan_literal(chars, at, "true") {
        Some(end) => Some((true, end)),
        None => match scan_literal(chars, at, "false") {
            Some(end) => Some((false, end)),
            None => None,
        },
    }
}

fn scan_task(chars: &Vec<char>, at: usize) -> (found: Option<(Task, usize)>)
    requires
        at <= chars.len(),
    ensures
        match read_task(chars@.skip(at as int)) {
            Some((task, rest)) => found matches Some((read, end)) && read@ == task && end
                <= chars.len() && rest == chars@.skip(end as int),
            None => found is None,
        },
{
    reveal(read_task);
    let after_open = match scan_literal(chars, at, "{\"name\":\"") {
        None => {
            return None;
        },
        Some(end) => end,
    };
    let (name, after_name) = match scan_name(chars, after_open) {
        None => {
            return None;
        },
        Some(pair) => pair,
    };
    let after_key = match scan_literal(chars, after_name, ",\"done\":") {
        None => {
            return None;
        },
        Some(end) => end,
    };
    let (done, after_flag) = match scan_flag(chars, after_key) {
        None => {
            return None;
        },
        Some(pair) => pair,
    };
    match scan_literal(chars, after_flag, "}") {
        None => None,
        Some(end) => Some((Task { name, done }, end)),
    }
}

/// What the tasks read so far and the reading of the rest amount to.
spec fn items_after(read: Seq<TaskView>, rest: Option<Seq<TaskView>>) -> Option<Seq<TaskView>> {
    match rest {
        None => None,
        Some(more) => Some(read + more),
    }
}

fn scan_items(chars: &Vec<char>, at: usize) -> (found: Option<Vec<Task>>)
    requires
        at <= chars.len(),
    ensures
        match read_items(chars@.skip(at as int)) {
            Some(tasks) => found matches Some(read) && task_views(read@) == tasks,
            None => found is None,
        },
{
    let ghost whole = read_items(chars@.skip(at as int));
    let mut tasks: Vec<Task> = Vec::new();
    let mut i: usize = at;
    assert(items_after(task_views(tasks@), read_items(chars@.skip(i as int))) =~= whole);
    loop
        invariant
            at <= i <= chars.len(),
            whole == read_items(chars@.skip(at as int)),
            whole == items_after(task_views(tasks@), read_items(chars@.skip(i as int))),
        decreases chars.len() - i,
    {
        let ghost s = chars@.skip(i as int);
        let ghost before = task_views(tasks@);
        let (task, end) = match scan_task(chars, i) {
            None => {
                return None;
            },
            Some(pair) => pair,
        };
        let ghost rest = chars@.skip(end as int);
        if end <= i {
            return None;
        }
        let left: usize = chars.len() - end;
        if left == 0 {
            return None;
        }
        assert(rest[0] == chars[end as int]);
        if left == 1 && chars[end] == ']' {
            tasks.push(task);
            assert(task_views(tasks@) =~= before + seq![task@]);
            return Some(tasks);
        }
        if left > 1 && chars[end] == ',' {
            assert(rest.skip(1) =~= chars@.skip(end + 1));
            tasks.push(task);
            proof {
                match read_items(chars@.skip(end + 1)) {
                    None => {},
                    Some(more) => {
                        assert(before + (seq![task@] + more) =~= task_views(tasks@) + more);
                    },
                }
            }
            i = end + 1;
        } else {
            return None;
        }
    }
}

fn scan_tasks(chars: &Vec<char>) -> (found: Option<Vec<Task>>)
    ensures
        match read_tasks(chars@) {
            Some(tasks) => found matches Some(read) && task_views(read@) == tasks,
            None => found is None,
        },
{
    if chars.len() < 2 || chars[0] != '[' {
        None
    } else if chars[1] == ']' {
        if chars.len() == 2 {
            let none: Vec<Task> = Vec::new();
            assert(task_views(none@) =~= Seq::<TaskView>::empty());
            Some(none)
        } else {
            None
        }
    } else {
        scan_items(chars, 1)
    }
}

proof fn lemma_hex_digit_value(n: int)
    requires
        0 <= n < 16,
    ensures
        is_hex_digit(hex_digit(n)),
        hex_value(hex_digit(n)) == n,
        n == 0 ==> hex_digit(n) == '0',
        n == 1 ==> hex_digit(n) == '1',
{
}

proof fn lemma_hex_value_digit(c: char)
    requires
        is_hex_digit(c),
    ensures
        0 <= hex_value(c) < 16,
        hex_digit(hex_value(c)) == c,
{
}

/// An escape that is read back gives the character it was written for.
proof fn lemma_read_unit_of_escape(c: char, rest: Seq<char>)
    ensures
        read_unit(escape_char(c) + rest) == Some((c, escape_char(c).len() as int)),
        escape_char(c).len() > 0,
        (escape_char(c) + rest)[0] != '"',
{
    let s = escape_char(c) + rest;
    if (c as int) < 0x20 && !has_short_escape(c) {
        let high = c as int / 16;
        let low = c as int % 16;
        lemma_hex_digit_value(high);
        lemma_hex_digit_value(low);
        assert(s[0] == '\\' && s[1] == 'u' && s[2] == '0' && s[3] == '0');
        assert(s[4] == hex_digit(high) && s[5] == hex_digit(low));
        assert(16 * high + low == c as int);
        assert((16 * hex_value(s[4]) + hex_value(s[5])) as char == c);
    } else if c == '"' || c == '\\' || has_short_escape(c) {
        assert(s[0] == '\\');
        assert(s[1] == escape_char(c)[1]);
    } else {
        assert(s[0] == c);
    }
}

/// Whatever is read as one character is that character's escape.
proof fn lemma_read_unit_sound(s: Seq<char>)
    requires
        read_unit(s) is Some,
    ensures
        ({
            let (c, n) = read_unit(s)->0;
            0 < n <= s.len() && s.take(n) == escape_char(c) && s[0] != '"'
        }),
{
    let (c, n) = read_unit(s)->0;
    if s[0] == '\\' && s[1] == 'u' {
        lemma_hex_value_digit(s[4]);
        lemma_hex_value_digit(s[5]);
        let v = 16 * hex_value(s[4]) + hex_value(s[5]);
        assert(0 <= v < 0x20);
        assert(c as int == v);
        assert(v / 16 == hex_value(s[4]) && v % 16 == hex_value(s[5]));
        assert(s.take(n) =~= escape_char(c));
    } else {
        assert(s.take(n) =~= escape_char(c));
    }
}

/// An escaped name that is read back gives the name.
proof fn lemma_read_name_of_escape(name: Seq<char>, rest: Seq<char>)
    ensures
        read_name(escape(name) + seq!['"'] + rest) == Some((name, rest)),
    decreases name.len(),
{
    let s = escape(name) + seq!['"'] + rest;
    if name.len() == 0 {
        assert(s[0] == '"');
        assert(s.skip(1) =~= rest);
        assert(name =~= Seq::<char>::empty());
    } else {
        let c = name[0];
        let tail = name.drop_first();
        let after = escape(tail) + seq!['"'] + rest;
        assert(s =~= escape_char(c) + after);
        lemma_read_unit_of_escape(c, after);
        assert(s.skip(escape_char(c).len() as int) =~= after);
        lemma_read_name_of_escape(tail, rest);
        assert(seq![c] + tail =~= name);
    }
}

/// Whatever is read as a name is that name's escaped text and a quote.
proof fn lemma_read_name_sound(s: Seq<char>)
    requires
        read_name(s) is Some,
    ensures
        ({
            let (name, rest) = read_name(s)->0;
            s == escape(name) + seq!['"'] + rest
        }),
    decreases s.len(),
{
    let (name, rest) = read_name(s)->0;
    if s[0] == '"' {
        assert(escape(name) =~= Seq::<char>::empty());
        assert(s =~= escape(name) + seq!['"'] + rest);
    } else {
        let (c, n) = read_unit(s)->0;
        lemma_read_unit_sound(s);
        lemma_read_name_sound(s.skip(n));
        let (more, after) = read_name(s.skip(n))->0;
        assert(name == seq![c] + more);
        assert(name[0] == c);
        assert(name.drop_first() =~= more);
        assert(s =~= s.take(n) + s.skip(n));
        assert(s =~= escape(name) + seq!['"'] + rest);
    }
}

proof fn lemma_literals()
    ensures
        "{\"name\":\""@ == seq!['{', '"', 'n', 'a', 'm', 'e', '"', ':', '"'],
        "\",\"done\":"@ == seq!['"', ',', '"', 'd', 'o', 'n', 'e', '"', ':'],
        ",\"done\":"@ == seq![',', '"', 'd', 'o', 'n', 'e', '"', ':'],
        "true"@ == seq!['t', 'r', 'u', 'e'],
        "false"@ == seq!['f', 'a', 'l', 's', 'e'],
        "}"@ == seq!['}'],
{
    reveal_strlit("{\"name\":\"");
    reveal_strlit("\",\"done\":");
    reveal_strlit(",\"done\":");
    reveal_strlit("true");
    reveal_strlit("false");
    reveal_strlit("}");
    assert("{\"name\":\""@ =~= seq!['{', '"', 'n', 'a', 'm', 'e', '"', ':', '"']);
    assert("\",\"done\":"@ =~= seq!['"', ',', '"', 'd', 'o', 'n', 'e', '"', ':']);
    assert(",\"done\":"@ =~= seq![',', '"', 'd', 'o', 'n', 'e', '"', ':']);
    assert("true"@ =~= seq!['t', 'r', 'u', 'e']);
    assert("false"@ =~= seq!['f', 'a', 'l', 's', 'e']);
    assert("}"@ =~= seq!['}']);
}

/// A text that starts with a literal is read past it.
proof fn lemma_skip_literal_of_prefix(literal: Seq<char>, rest: Seq<char>)
    ensures
        skip_literal(literal + rest, literal) == Some(rest),
{
    let s = literal + rest;
    assert(s.subrange(0, literal.len() as int) =~= literal);
    assert(s.skip(literal.len() as int) =~= rest);
}

/// A text that was read past a literal starts with it.
proof fn lemma_skip_literal_sound(s: Seq<char>, literal: Seq<char>)
    requires
        skip_literal(s, literal) is Some,
    ensures
        s == literal + skip_literal(s, literal)->0,
{
    assert(s =~= s.subrange(0, literal.len() as int) + s.skip(literal.len() as int));
}

/// The text of a task that is read back gives the task.
proof fn lemma_read_task_of_encode(task: TaskView, rest: Seq<char>)
    ensures
        read_task(encode_task(task) + rest) == Some((task, rest)),
        encode_task(task).len() > 0,
        encode_task(task)[0] == '{',
{
    reveal(read_task);
    lemma_literals();
    let open = "{\"name\":\""@;
    let key = ",\"done\":"@;
    let close = "}"@;
    let s = encode_task(task) + rest;
    let s4 = close + rest;
    let s3 = flag_text(task.done) + s4;
    let s2 = key + s3;
    let s1 = escape(task.name) + seq!['"'] + s2;
    assert("\",\"done\":"@ =~= seq!['"'] + key);
    assert(s =~= open + s1);
    lemma_skip_literal_of_prefix(open, s1);
    lemma_read_name_of_escape(task.name, s2);
    lemma_skip_literal_of_prefix(key, s3);
    lemma_skip_literal_of_prefix(flag_text(task.done), s4);
    if !task.done {
        assert(s3[0] == 'f');
        assert(!"true"@.is_prefix_of(s3)) by {
            if "true"@.is_prefix_of(s3) {
                assert(s3.subrange(0, 4)[0] == 't');
            }
        }
    }
    lemma_skip_literal_of_prefix(close, rest);
    assert(encode_task(task)[0] == open[0]);
}

/// Whatever is read as a task is that task's text.
proof fn lemma_read_task_sound(s: Seq<char>)
    requires
        read_task(s) is Some,
    ensures
        ({
            let (task, rest) = read_task(s)->0;
            s == encode_task(task) + rest && rest.len() < s.len()
        }),
{
    reveal(read_task);
    lemma_literals();
    let open = "{\"name\":\""@;
    let key = ",\"done\":"@;
    let close = "}"@;
    let (task, rest) = read_task(s)->0;
    let s1 = skip_literal(s, open)->0;
    lemma_skip_literal_sound(s, open);
    let (name, s2) = read_name(s1)->0;
    lemma_read_name_sound(s1);
    let s3 = skip_literal(s2, key)->0;
    lemma_skip_literal_sound(s2, key);
    let (done, s4) = read_flag(s3)->0;
    if skip_literal(s3, "true"@) is Some {
        lemma_skip_literal_sound(s3, "true"@);
    } else {
        lemma_skip_literal_sound(s3, "false"@);
    }
    assert(s3 == flag_text(done) + s4);
    lemma_skip_literal_sound(s4, close);
    assert("\",\"done\":"@ =~= seq!['"'] + key);
    assert(s =~= encode_task(task) + rest);
}

/// The text of one or more tasks that is read back gives the tasks.
proof fn lemma_read_items_of_encode(tasks: Seq<TaskView>)
    requires
        tasks.len() > 0,
    ensures
        read_items(encode_items(tasks) + seq![']']) == Some(tasks),
        encode_items(tasks).len() > 0,
        encode_items(tasks)[0] == '{',
    decreases tasks.len(),
{
    let s = encode_items(tasks) + seq![']'];
    let first = tasks[0];
    if tasks.len() == 1 {
        lemma_read_task_of_encode(first, seq![']']);
        assert(seq![first] =~= tasks);
    } else {
        let tail = tasks.drop_first();
        let rest = seq![','] + encode_items(tail) + seq![']'];
        assert(s =~= encode_task(first) + rest);
        lemma_read_task_of_encode(first, rest);
        assert(rest.skip(1) =~= encode_items(tail) + seq![']']);
        lemma_read_items_of_encode(tail);
        assert(seq![first] + tail =~= tasks);
    }
}

/// Whatever is read as one or more tasks is the text of those tasks and the
/// closing bracket.
proof fn lemma_read_items_sound(s: Seq<char>)
    requires
        read_items(s) is Some,
    ensures
        ({
            let tasks = read_items(s)->0;
            tasks.len() > 0 && s == encode_items(tasks) + seq![']']
        }),
    decreases s.len(),
{
    let tasks = read_items(s)->0;
    let (task, rest) = read_task(s)->0;
    lemma_read_task_sound(s);
    if rest.len() == 1 && rest[0] == ']' {
        assert(rest =~= seq![']']);
        assert(tasks =~= seq![task]);
    } else {
        lemma_read_items_sound(rest.skip(1));
        let more = read_items(rest.skip(1))->0;
        assert(tasks == seq![task] + more);
        assert(tasks[0] == task);
        assert(tasks.drop_first() =~= more);
        assert(rest =~= seq![','] + rest.skip(1));
        assert(s =~= encode_items(tasks) + seq![']']);
    }
}

/// The text of a task sequence that is read back gives the sequence.
proof fn lemma_read_tasks_of_encode(tasks: Seq<TaskView>)
    ensures
        read_tasks(encode_tasks(tasks)) == Some(tasks),
{
    let s = encode_tasks(tasks);
    if tasks.len() == 0 {
        assert(s =~= seq!['[', ']']);
        assert(tasks =~= Seq::<TaskView>::empty());
    } else {
        lemma_read_items_of_encode(tasks);
        assert(s[1] == encode_items(tasks)[0]);
        assert(s.skip(1) =~= encode_items(tasks) + seq![']']);
    }
}

/// Whatever is read as a task sequence is the text of that sequence.
proof fn lemma_read_tasks_sound(s: Seq<char>)
    requires
        read_tasks(s) is Some,
    ensures
        s == encode_tasks(read_tasks(s)->0),
{
    let tasks = read_tasks(s)->0;
    if s[1] == ']' {
        assert(encode_items(tasks) =~= Seq::<char>::empty());
        assert(s =~= encode_tasks(tasks));
    } else {
        lemma_read_items_sound(s.skip(1));
        assert(s =~= seq!['['] + s.skip(1));
        assert(s =~= encode_tasks(tasks));
    }
}

/// Reading decides what a text stands for.
proof fn lemma_decode_is_read(text: Seq<char>)
    ensures
        decode_tasks(text) == match read_tasks(text) {
            Some(tasks) => tasks,
            None => Seq::empty(),
        },
{
    match read_tasks(text) {
        Some(tasks) => {
            lemma_read_tasks_sound(text);
            assert(is_encoding(text));
            let chosen = choose|tasks: Seq<TaskView>| encode_tasks(tasks) == text;
            lemma_read_tasks_of_encode(chosen);
        },
        None => {
            if is_encoding(text) {
                let chosen = choose|tasks: Seq<TaskView>| encode_tasks(tasks) == text;
                lemma_read_tasks_of_encode(chosen);
            }
        },
    }
}

/// Two task sequences with the same text are the same sequence.
pub proof fn lemma_encode_injective(a: Seq<TaskView>, b: Seq<TaskView>)
    requires
        encode_tasks(a) == encode_tasks(b),
    ensures
        a == b,
{
    lemma_read_tasks_of_encode(a);
    lemma_read_tasks_of_encode(b);
}

/// Round trip: the text of a task sequence stands for that sequence.
pub proof fn lemma_decode_encode(tasks: Seq<TaskView>)
    ensures
        decode_tasks(encode_tasks(tasks)) == tasks,
{
    lemma_decode_is_read(encode_tasks(tasks));
    lemma_read_tasks_of_encode(tasks);
}

/// A text that is not the text of any task sequence stands for the empty
/// sequence.
pub proof fn lemma_decode_other(text: Seq<char>)
    requires
        !is_encoding(text),
    ensures
        decode_tasks(text) == Seq::<TaskView>::empty(),
{
}

/// Reads a stored text back into a task sequence.
///
/// The text that [`encode`] wrote for a sequence gives that sequence. Any
/// other text, damaged or foreign, gives the empty sequence: reading never
/// fails.
pub fn decode(text: &str) -> (tasks: Vec<Task>)
    ensures
        task_views(tasks@) == decode_tasks(text@),
{
    let chars = chars_of(text);
    proof {
        lemma_decode_is_read(text@);
    }
    match scan_tasks(&chars) {
        Some(tasks) => tasks,
        None => {
            let none: Vec<Task> = Vec::new();
            assert(task_views(none@) =~= Seq::<TaskView>::empty());
            none
        },
    }
}

} // verus!
