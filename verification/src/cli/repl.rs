//! Interactive mode: the words of a line, and what Tab offers.
use super::args::CliError;
use crate::text::{append, chars_of, is_whitespace, owned, same_text, string_of};
use vstd::prelude::*;

verus! {

/// How far the splitting of a line has come.
#[verifier::ext_equal]
pub struct Splitting {
    pub words: Seq<Seq<char>>,
    pub current: Seq<char>,
    pub quote: Option<char>,
    pub escaped: bool,
}

impl Splitting {
    pub open spec fn start() -> Splitting {
        Splitting { words: Seq::empty(), current: Seq::empty(), quote: None, escaped: false }
    }

    /// One character more.
    pub open spec fn step(self, c: char) -> Splitting {
        if self.escaped {
            Splitting { current: self.current.push(c), escaped: false, ..self }
        } else if c == '\\' {
            Splitting { escaped: true, ..self }
        } else {
            match self.quote {
                Some(q) => if c == q {
                    Splitting { quote: None, ..self }
                } else {
                    Splitting { current: self.current.push(c), ..self }
                },
                None => if c == '\'' || c == '"' {
                    Splitting { quote: Some(c), ..self }
                } else if crate::text::is_space(c) {
                    if self.current.len() > 0 {
                        Splitting {
                            words: self.words.push(self.current),
                            current: Seq::empty(),
                            ..self
                        }
                    } else {
                        self
                    }
                } else {
                    Splitting { current: self.current.push(c), ..self }
                },
            }
        }
    }

    /// Characters, one after the other.
    pub open spec fn run(self, s: Seq<char>) -> Splitting
        decreases s.len(),
    {
        if s.len() == 0 {
            self
        } else {
            self.run(s.drop_last()).step(s.last())
        }
    }

    /// The words at the end of the line; none, where a quote is open.
    pub open spec fn done(self) -> Option<Seq<Seq<char>>> {
        let last = if self.escaped {
            self.current.push('\\')
        } else {
            self.current
        };
        if self.quote is Some {
            None
        } else if last.len() > 0 {
            Some(self.words.push(last))
        } else {
            Some(self.words)
        }
    }
}

/// The words of a line: separated by white space, which quotes and backslashes make part of a
/// word; none, where a quote is left open.
pub open spec fn line_words(input: Seq<char>) -> Option<Seq<Seq<char>>> {
    Splitting::start().run(input).done()
}

/// The words of a line.
pub fn split_words(input: &str) -> (r: Result<Vec<String>, CliError>)
    ensures
        match line_words(input@) {
            Some(ws) => r is Ok && crate::text::texts(r->Ok_0@) == ws,
            None => r is Err && r->Err_0@ == "unterminated quote"@,
        },
{
    let chars: Vec<char> = chars_of(input);
    let mut words: Vec<String> = Vec::new();
    let mut current: String = String::new();
    let mut quote: Option<char> = None;
    let mut escaped: bool = false;
    let mut i: usize = 0;
    let ghost mut s = Splitting::start();
    assert(crate::text::texts(words@) =~= Seq::empty());
    while i < chars.len()
        invariant
            chars@ == input@,
            i <= chars@.len(),
            s == (Splitting {
                words: crate::text::texts(words@),
                current: current@,
                quote,
                escaped,
            }),
            s == Splitting::start().run(input@.take(i as int)),
        decreases chars.len() - i,
    {
        let c: char = chars[i];
        let ghost next = s.step(c);
        proof {
            let t = input@.take(i + 1);
            assert(t.drop_last() =~= input@.take(i as int));
            assert(t.last() == c);
        }
        if escaped {
            current.push(c);
            escaped = false;
        } else if c == '\\' {
            escaped = true;
        } else {
            match quote {
                Some(q) => {
                    if c == q {
                        quote = None;
                    } else {
                        current.push(c);
                    }
                },
                None => {
                    if c == '\'' || c == '"' {
                        quote = Some(c);
                    } else if is_whitespace(c) {
                        if !current.as_str().is_empty() {
                            let mut word: String = String::new();
                            std::mem::swap(&mut word, &mut current);
                            proof {
                                crate::text::lemma_texts_push(words@, word);
                            }
                            words.push(word);
                        }
                    } else {
                        current.push(c);
                    }
                },
            }
        }
        proof {
            s = Splitting { words: crate::text::texts(words@), current: current@, quote, escaped };
            assert(s =~= next);
        }
        i += 1;
    }
    assert(input@.take(i as int) =~= input@);
    if escaped {
        current.push('\\');
    }
    if quote.is_some() {
        return Err(CliError::new(owned("unterminated quote")));
    }
    if !current.as_str().is_empty() {
        proof {
            crate::text::lemma_texts_push(words@, current);
        }
        words.push(current);
    }
    Ok(words)
}

/// A text without white space at its beginning.
pub open spec fn trimmed_start(s: Seq<char>) -> Seq<char>
    decreases s.len(),
{
    if s.len() > 0 && crate::text::is_space(s[0]) {
        trimmed_start(s.skip(1))
    } else {
        s
    }
}

/// A text without white space at its end.
pub open spec fn trimmed_end(s: Seq<char>) -> Seq<char>
    decreases s.len(),
{
    if s.len() > 0 && crate::text::is_space(s.last()) {
        trimmed_end(s.drop_last())
    } else {
        s
    }
}

/// A text without white space at its ends.
pub fn trim(s: &str) -> (r: String)
    ensures
        r@ == trimmed_end(trimmed_start(s@)),
{
    let chars: Vec<char> = chars_of(s);
    let mut from: usize = 0;
    assert(chars@.skip(0) =~= chars@);
    while from < chars.len() && is_whitespace(chars[from])
        invariant
            chars@ == s@,
            from <= chars@.len(),
            trimmed_start(s@) == trimmed_start(chars@.skip(from as int)),
        decreases chars.len() - from,
    {
        assert(chars@.skip(from as int).skip(1) =~= chars@.skip(from + 1));
        from += 1;
    }
    let ghost t = chars@.skip(from as int);
    assert(trimmed_start(s@) == t);
    let mut to: usize = chars.len();
    assert(chars@.subrange(from as int, to as int) =~= t);
    while to > from && is_whitespace(chars[to - 1])
        invariant
            from <= to <= chars@.len(),
            trimmed_end(t) == trimmed_end(chars@.subrange(from as int, to as int)),
        decreases to - from,
    {
        assert(chars@.subrange(from as int, to as int).drop_last() =~= chars@.subrange(
            from as int,
            to - 1,
        ));
        to -= 1;
    }
    string_of(&chars, from, to)
}

/// What a line in interactive mode asks for.
pub enum Input {
    /// Nothing.
    Nothing,
    /// To leave.
    Exit,
    /// To see how the client is used.
    Help,
    /// To carry out a command.
    Run { command: String, args: Vec<String> },
    /// Something that cannot be read.
    Unreadable(CliError),
}

/// What a line in interactive mode asks for, as mathematical values.
pub enum InputView {
    Nothing,
    Exit,
    Help,
    Run(Seq<char>, Seq<Seq<char>>),
    Unreadable(Seq<char>),
}

impl View for Input {
    type V = InputView;

    open spec fn view(&self) -> InputView {
        match self {
            Input::Nothing => InputView::Nothing,
            Input::Exit => InputView::Exit,
            Input::Help => InputView::Help,
            Input::Run { command, args } => InputView::Run(
                command@,
                crate::text::texts(args@),
            ),
            Input::Unreadable(e) => InputView::Unreadable(e@),
        }
    }
}

/// What a line without white space at its ends asks for.
pub open spec fn asked(input: Seq<char>) -> InputView {
    if input.len() == 0 {
        InputView::Nothing
    } else if input == "exit"@ || input == "quit"@ {
        InputView::Exit
    } else if input == "help"@ {
        InputView::Help
    } else {
        match line_words(input) {
            None => InputView::Unreadable("unterminated quote"@),
            Some(ws) => if ws.len() == 0 {
                InputView::Nothing
            } else {
                InputView::Run(ws[0], ws.skip(1))
            },
        }
    }
}

/// What a line in interactive mode asks for.
pub fn read_input(input: &str) -> (r: Input)
    ensures
        r@ == asked(trimmed_end(trimmed_start(input@))),
{
    let text: String = trim(input);
    if text.as_str().is_empty() {
        return Input::Nothing;
    }
    if same_text(text.as_str(), "exit") || same_text(text.as_str(), "quit") {
        return Input::Exit;
    }
    if same_text(text.as_str(), "help") {
        return Input::Help;
    }
    match split_words(text.as_str()) {
        Err(e) => Input::Unreadable(e),
        Ok(ws) => {
            let mut ws = ws;
            if ws.len() == 0 {
                return Input::Nothing;
            }
            let ghost v = crate::text::texts(ws@);
            let command: String = ws.remove(0);
            assert(v[0] == command@);
            assert(crate::text::texts(ws@) =~= v.skip(1));
            Input::Run { command, args: ws }
        },
    }
}

/// What Tab offers: what is shown, and what is put in.
pub struct Completion {
    pub display: String,
    pub replacement: String,
}

/// The client's commands, in the order in which they are offered.
pub open spec fn command_names() -> Seq<Seq<char>> {
    seq![
        "put"@,
        "reserve"@,
        "delete"@,
        "release"@,
        "bury"@,
        "touch"@,
        "peek"@,
        "peek-ready"@,
        "peek-delayed"@,
        "peek-buried"@,
        "kick"@,
        "kick-job"@,
        "stats"@,
        "tubes"@,
        "list-tubes"@,
        "using"@,
        "list-tube-used"@,
        "watching"@,
        "list-tubes-watched"@,
        "pause-tube"@,
        "raw"@,
        "help"@,
        "exit"@,
        "quit"@,
    ]
}

/// The options of `put`, in the order in which they are offered.
pub open spec fn put_options() -> Seq<Seq<char>> {
    seq![
        "--tube"@,
        "-t"@,
        "--pri"@,
        "--priority"@,
        "--delay"@,
        "--ttr"@,
        "--file"@,
        "-f"@,
        "--stdin"@,
    ]
}

/// The options of `reserve`, in the order in which they are offered.
pub open spec fn reserve_options() -> Seq<Seq<char>> {
    seq!["--timeout"@, "--watch"@, "-w"@, "--delete"@]
}

/// What `stats` can be asked of.
pub open spec fn stats_kinds() -> Seq<Seq<char>> {
    seq!["job"@, "tube"@]
}

fn strings(list: &[&str]) -> (r: Vec<String>)
    ensures
        r@.len() == list@.len(),
        forall|i: int| 0 <= i < list@.len() ==> (#[trigger] r@[i])@ == list@[i]@,
{
    let mut out: Vec<String> = Vec::new();
    let mut i: usize = 0;
    while i < list.len()
        invariant
            i <= list@.len(),
            out@.len() == i,
            forall|j: int| 0 <= j < i ==> (#[trigger] out@[j])@ == list@[j]@,
        decreases list.len() - i,
    {
        out.push(owned(list[i]));
        i += 1;
    }
    out
}

fn commands() -> (r: Vec<String>)
    ensures
        crate::text::texts(r@) == command_names(),
{
    let r = strings(
        &[
            "put",
            "reserve",
            "delete",
            "release",
            "bury",
            "touch",
            "peek",
            "peek-ready",
            "peek-delayed",
            "peek-buried",
            "kick",
            "kick-job",
            "stats",
            "tubes",
            "list-tubes",
            "using",
            "list-tube-used",
            "watching",
            "list-tubes-watched",
            "pause-tube",
            "raw",
            "help",
            "exit",
            "quit",
        ],
    );
    assert(crate::text::texts(r@) =~= command_names());
    r
}

fn options_of_put() -> (r: Vec<String>)
    ensures
        crate::text::texts(r@) == put_options(),
{
    let r = strings(
        &[
            "--tube",
            "-t",
            "--pri",
            "--priority",
            "--delay",
            "--ttr",
            "--file",
            "-f",
            "--stdin",
        ],
    );
    assert(crate::text::texts(r@) =~= put_options());
    r
}

fn options_of_reserve() -> (r: Vec<String>)
    ensures
        crate::text::texts(r@) == reserve_options(),
{
    let r = strings(&["--timeout", "--watch", "-w", "--delete"]);
    assert(crate::text::texts(r@) =~= reserve_options());
    r
}

fn kinds_of_stats() -> (r: Vec<String>)
    ensures
        crate::text::texts(r@) == stats_kinds(),
{
    let r = strings(&["job", "tube"]);
    assert(crate::text::texts(r@) =~= stats_kinds());
    r
}

// ---------------------------------------------------------------------------
// Completion
// ---------------------------------------------------------------------------
/// The position of the cursor, in bytes, not behind the end of the line.
pub open spec fn cursor(line: Seq<char>, pos: nat) -> int {
    let n = vstd::utf8::encode_utf8(line).len();
    if pos < n {
        pos as int
    } else {
        n as int
    }
}

/// The part of the line before the cursor.
pub open spec fn before_cursor(line: Seq<char>, pos: nat) -> Seq<char> {
    vstd::utf8::decode_utf8(
        vstd::utf8::encode_utf8(line).subrange(0, cursor(line, pos)),
    )
}

/// The part of the line from the cursor on.
pub open spec fn after_cursor(line: Seq<char>, pos: nat) -> Seq<char> {
    let b = vstd::utf8::encode_utf8(line);
    vstd::utf8::decode_utf8(b.subrange(cursor(line, pos), b.len() as int))
}

/// Where the last word of a text begins: behind its last white space.
pub open spec fn word_start(s: Seq<char>) -> int
    decreases s.len(),
{
    if s.len() == 0 {
        0
    } else if crate::text::is_space(s.last()) {
        s.len() as int
    } else {
        word_start(s.drop_last())
    }
}

/// What is offered for the word before the cursor, by the words that stand before it.
pub open spec fn offered(before: Seq<char>) -> Seq<Seq<char>> {
    let start = word_start(before);
    let prefix = before.skip(start);
    let ws = crate::text::words(before.take(start));
    let option = prefix.len() > 0 && prefix[0] == '-';
    if ws.len() == 0 {
        command_names()
    } else if ws[0] == "put"@ && option {
        put_options()
    } else if ws[0] == "reserve"@ && option {
        reserve_options()
    } else if ws[0] == "stats"@ {
        stats_kinds()
    } else if start == 0 {
        command_names()
    } else {
        Seq::empty()
    }
}

/// A completion, as mathematical values: what is shown, and what is put in.
pub open spec fn pair(candidate: Seq<char>, spaced: bool) -> (Seq<char>, Seq<char>) {
    (
        candidate,
        if spaced {
            candidate
        } else {
            candidate + " "@
        },
    )
}

/// What is put in, and shown, for each candidate that begins like the word before the cursor.
pub open spec fn completions(candidates: Seq<Seq<char>>, prefix: Seq<char>, spaced: bool) -> Seq<
    (Seq<char>, Seq<char>),
>
    decreases candidates.len(),
{
    if candidates.len() == 0 {
        Seq::empty()
    } else {
        let rest = completions(candidates.drop_last(), prefix, spaced);
        if crate::text::has_prefix(candidates.last(), prefix) {
            rest.push(pair(candidates.last(), spaced))
        } else {
            rest
        }
    }
}

/// Whether white space follows.
pub open spec fn space_follows(s: Seq<char>) -> bool {
    s.len() > 0 && crate::text::is_space(s[0])
}

/// The views of completions.
pub open spec fn pairs(v: Seq<Completion>) -> Seq<(Seq<char>, Seq<char>)> {
    v.map_values(|c: Completion| (c.display@, c.replacement@))
}

fn completion_pair(candidate: &str, spaced: bool) -> (r: Completion)
    ensures
        (r.display@, r.replacement@) == pair(candidate@, spaced),
{
    let mut replacement: String = owned(candidate);
    if !spaced {
        append(&mut replacement, " ");
    }
    Completion { display: owned(candidate), replacement }
}

fn candidates_for(chars: &Vec<char>, start: usize) -> (r: Vec<String>)
    requires
        start == word_start(chars@),
        start <= chars@.len(),
    ensures
        crate::text::texts(r@) == offered(chars@),
{
    let option: bool = start < chars.len() && chars[start] == '-';
    assert(chars@.subrange(0, start as int) =~= chars@.take(start as int));
    let ws: Vec<String> = crate::text::words_of(chars, 0, start);
    let ghost v = crate::text::texts(ws@);
    assert(forall|k: int| 0 <= k < ws@.len() ==> #[trigger] v[k] == ws@[k]@);
    if ws.len() == 0 {
        return commands();
    }
    if same_text(ws[0].as_str(), "put") && option {
        return options_of_put();
    }
    if same_text(ws[0].as_str(), "reserve") && option {
        return options_of_reserve();
    }
    if same_text(ws[0].as_str(), "stats") {
        return kinds_of_stats();
    }
    if start == 0 {
        return commands();
    }
    let none: Vec<String> = Vec::new();
    assert(crate::text::texts(none@) =~= Seq::empty());
    none
}

/// What Tab offers at a position of the line: where the word begins that is completed, and the
/// completions.
pub fn completion_candidates(line: &str, pos: usize) -> (r: (usize, Vec<Completion>))
    requires
        pos >= vstd::utf8::encode_utf8(line@).len() || vstd::utf8::is_char_boundary(
            vstd::utf8::encode_utf8(line@),
            pos as int,
        ),
    ensures
        ({
            let before = before_cursor(line@, pos as nat);
            let start = word_start(before);
            &&& r.0 == vstd::utf8::encode_utf8(before.take(start)).len()
            &&& pairs(r.1@) == completions(
                offered(before),
                before.skip(start),
                space_follows(after_cursor(line@, pos as nat)),
            )
        }),
{
    let size: usize = line.as_bytes().len();
    let at: usize = if pos < size {
        pos
    } else {
        size
    };
    proof {
        vstd::utf8::encode_utf8_valid_utf8(line@);
        vstd::utf8::is_char_boundary_start_end_of_seq(vstd::utf8::encode_utf8(line@));
    }
    let (head, tail): (&str, &str) = line.split_at(at);
    proof {
        vstd::utf8::encode_utf8_decode_utf8(head@);
        vstd::utf8::encode_utf8_decode_utf8(tail@);
        assert(head@ == before_cursor(line@, pos as nat));
        assert(tail@ == after_cursor(line@, pos as nat));
    }
    let chars: Vec<char> = chars_of(head);
    let rest: Vec<char> = chars_of(tail);
    let spaced: bool = rest.len() > 0 && is_whitespace(rest[0]);
    let mut start: usize = chars.len();
    assert(chars@.take(start as int) =~= chars@);
    while start > 0 && !is_whitespace(chars[start - 1])
        invariant
            start <= chars@.len(),
            word_start(chars@) == word_start(chars@.take(start as int)),
        decreases start,
    {
        assert(chars@.take(start as int).drop_last() =~= chars@.take(start - 1));
        start -= 1;
    }
    assert(word_start(chars@) == start);
    let prefix_text: String = string_of(&chars, start, chars.len());
    let prefix: Vec<char> = chars_of(prefix_text.as_str());
    assert(chars@.subrange(start as int, chars@.len() as int) =~= chars@.skip(start as int));
    let lead: String = string_of(&chars, 0, start);
    assert(chars@.subrange(0, start as int) =~= chars@.take(start as int));
    let offset: usize = lead.as_str().as_bytes().len();
    let list: Vec<String> = candidates_for(&chars, start);
    let ghost v = crate::text::texts(list@);
    let mut out: Vec<Completion> = Vec::new();
    let mut i: usize = 0;
    assert(pairs(out@) =~= completions(v.take(0), prefix@, spaced));
    while i < list.len()
        invariant
            v == crate::text::texts(list@),
            i <= list@.len(),
            pairs(out@) == completions(v.take(i as int), prefix@, spaced),
        decreases list.len() - i,
    {
        let ghost before = out@;
        let candidate: Vec<char> = chars_of(list[i].as_str());
        proof {
            let t = v.take(i + 1);
            assert(t.drop_last() =~= v.take(i as int));
            assert(t.last() == list@[i as int]@);
            assert(candidate@.skip(0) =~= candidate@);
        }
        if starts_with(&candidate, &prefix) {
            let c: Completion = completion_pair(list[i].as_str(), spaced);
            out.push(c);
            assert(pairs(out@) =~= pairs(before).push((c.display@, c.replacement@)));
        }
        i += 1;
    }
    assert(v.take(i as int) =~= v);
    (offset, out)
}

fn starts_with(s: &Vec<char>, prefix: &Vec<char>) -> (r: bool)
    ensures
        r == crate::text::has_prefix(s@, prefix@),
{
    assert(s@.skip(0) =~= s@);
    crate::text::starts_with_at(s, 0, prefix)
}

} // verus!
