//! The line protocol: a line of whitespace-separated words becomes a typed
//! command or a parse error. The command word is matched without regard to
//! case; keys are kept as written. Value words (vector elements and the
//! scaling factor) must be floating-point literals and are kept as text for
//! the numeric layer to read: vector elements that are not are left out, a
//! scaling factor that is not is an error.

use vstd::prelude::*;
use crate::number::{chars_of, is_float_text, is_float_word, parse_usize, usize_of_text};

verus! {

/// A character with the Unicode White_Space property.
pub open spec fn is_white_space(c: char) -> bool {
    let u = c as u32;
    ||| 9 <= u <= 13
    ||| u == 32
    ||| u == 0x85
    ||| u == 0xA0
    ||| u == 0x1680
    ||| 0x2000 <= u <= 0x200A
    ||| u == 0x2028
    ||| u == 0x2029
    ||| u == 0x202F
    ||| u == 0x205F
    ||| u == 0x3000
}

/// The words of `s` from position `i` on, the word under way so far being
/// `cur`: maximal runs of characters that are not white space.
pub open spec fn words_from(s: Seq<char>, i: int, cur: Seq<char>) -> Seq<Seq<char>>
    decreases s.len() - i,
{
    if i < 0 || i >= s.len() {
        if cur.len() > 0 {
            seq![cur]
        } else {
            seq![]
        }
    } else if is_white_space(s[i]) {
        if cur.len() > 0 {
            seq![cur] + words_from(s, i + 1, seq![])
        } else {
            words_from(s, i + 1, seq![])
        }
    } else {
        words_from(s, i + 1, cur.push(s[i]))
    }
}

/// The whitespace-separated words of a line.
pub open spec fn words_of(s: Seq<char>) -> Seq<Seq<char>> {
    words_from(s, 0, seq![])
}

/// A word in lower case, as `str::to_lowercase` gives it.
pub uninterp spec fn lower_of(s: Seq<char>) -> Seq<char>;

/// Relies on `String`'s `FromIterator<char>`: a string of these characters.
#[verifier::external_body]
fn string_of(v: &Vec<char>) -> (r: String)
    ensures
        r@ == v@,
{
    v.iter().collect()
}

fn is_white_space_char(c: char) -> (r: bool)
    ensures
        r == is_white_space(c),
{
    let u = c as u32;
    (9 <= u && u <= 13) || u == 32 || u == 0x85 || u == 0xA0 || u == 0x1680 || (0x2000 <= u && u <= 0x200A)
        || u == 0x2028 || u == 0x2029 || u == 0x202F || u == 0x205F || u == 0x3000
}

/// The whitespace-separated words of `s`, in order.
pub fn split_words(s: &str) -> (r: Vec<String>)
    ensures
        texts(r@) == words_of(s@),
{
    let c = chars_of(s);
    let mut out: Vec<String> = Vec::new();
    let mut cur: Vec<char> = Vec::new();
    let mut i: usize = 0;
    while i < c.len()
        invariant
            c@ == s@,
            i <= c.len(),
            texts(out@) + words_from(c@, i as int, cur@) == words_of(s@),
        decreases c.len() - i,
    {
        let ch = c[i];
        if is_white_space_char(ch) {
            if cur.len() > 0 {
                let w = string_of(&cur);
                proof {
                    assert(texts(out@.push(w)) =~= texts(out@) + seq![cur@]);
                    assert(texts(out@) + (seq![cur@] + words_from(c@, i + 1, seq![])) =~= texts(out@.push(w))
                        + words_from(c@, i + 1, seq![]));
                }
                out.push(w);
            }
            cur = Vec::new();
            proof {
                assert(cur@ =~= Seq::<char>::empty());
            }
        } else {
            cur.push(ch);
        }
        i += 1;
    }
    if cur.len() > 0 {
        let w = string_of(&cur);
        proof {
            assert(texts(out@.push(w)) =~= texts(out@) + seq![cur@]);
        }
        out.push(w);
    } else {
        proof {
            assert(texts(out@) + seq![] =~= texts(out@));
        }
    }
    out
}

/// Relies on `str::to_lowercase`: the lower-case form of `s`.
#[verifier::external_body]
fn lowercase(s: &str) -> (r: String)
    ensures
        r@ == lower_of(s@),
{
    s.to_lowercase()
}

/// A parsed command line.
pub enum Command {
    /// Check that the server answers.
    Ping,
    /// Store a vector under a generated key; the value words that are
    /// floating-point literals, as written.
    Insert(Vec<String>),
    /// Store a vector under the given key; the value words that are
    /// floating-point literals, as written.
    NamedInsert(String, Vec<String>),
    /// Fetch the vector under a key.
    Get(String),
    /// Remove the vector under a key.
    Remove(String),
    /// The `k` stored vectors nearest to the one under a key.
    KNearestNeighbors(String, usize),
    /// Element-wise sum of the vectors under two keys.
    VectorAddition(String, String),
    /// Element-wise difference of the vectors under two keys.
    VectorSubtraction(String, String),
    /// The vector under a key times a factor; the factor word, a
    /// floating-point literal, as written.
    VectorScaling(String, String),
    /// Cosine similarity of the vectors under two keys.
    CosineSimilarity(String, String),
    /// Write the whole store to a file.
    Dump(String),
}

/// A command as mathematical values.
pub enum CommandView {
    Ping,
    Insert(Seq<Seq<char>>),
    NamedInsert(Seq<char>, Seq<Seq<char>>),
    Get(Seq<char>),
    Remove(Seq<char>),
    KNearestNeighbors(Seq<char>, usize),
    VectorAddition(Seq<char>, Seq<char>),
    VectorSubtraction(Seq<char>, Seq<char>),
    VectorScaling(Seq<char>, Seq<char>),
    CosineSimilarity(Seq<char>, Seq<char>),
    Dump(Seq<char>),
}

/// The words of `ws` that are floating-point literals, in order.
pub open spec fn number_words(ws: Seq<Seq<char>>) -> Seq<Seq<char>> {
    ws.filter(|w: Seq<char>| is_float_text(w))
}

/// The texts of a list of words.
pub open spec fn texts(v: Seq<String>) -> Seq<Seq<char>> {
    v.map_values(|w: String| w@)
}

impl View for Command {
    type V = CommandView;

    open spec fn view(&self) -> CommandView {
        match self {
            Command::Ping => CommandView::Ping,
            Command::Insert(v) => CommandView::Insert(texts(v@)),
            Command::NamedInsert(k, v) => CommandView::NamedInsert(k@, texts(v@)),
            Command::Get(k) => CommandView::Get(k@),
            Command::Remove(k) => CommandView::Remove(k@),
            Command::KNearestNeighbors(k, n) => CommandView::KNearestNeighbors(k@, *n),
            Command::VectorAddition(a, b) => CommandView::VectorAddition(a@, b@),
            Command::VectorSubtraction(a, b) => CommandView::VectorSubtraction(a@, b@),
            Command::VectorScaling(k, s) => CommandView::VectorScaling(k@, s@),
            Command::CosineSimilarity(a, b) => CommandView::CosineSimilarity(a@, b@),
            Command::Dump(p) => CommandView::Dump(p@),
        }
    }
}

/// Why a line is not a command.
#[derive(Clone, Copy, Debug, PartialEq, Eq, Structural)]
pub enum ParseError {
    Empty,
    Unknown,
    InvalidInsert,
    InvalidNamedInsert,
    InvalidGet,
    InvalidRemove,
    InvalidDump,
    MissingKey,
    MissingK,
    InvalidK,
    MissingKey1,
    MissingKey2,
    MissingScalar,
    InvalidScalar,
}

impl ParseError {
    /// The diagnostic shown to the client.
    pub open spec fn spec_message(self) -> Seq<char> {
        match self {
            ParseError::Empty => "Empty command"@,
            ParseError::Unknown => "Unknown command"@,
            ParseError::InvalidInsert => "Invalid INSERT command"@,
            ParseError::InvalidNamedInsert => "Invalid NAMED_INSERT command"@,
            ParseError::InvalidGet => "Invalid GET command"@,
            ParseError::InvalidRemove => "Invalid REMOVE command"@,
            ParseError::InvalidDump => "Invalid DUMP command"@,
            ParseError::MissingKey => "Missing key"@,
            ParseError::MissingK => "Missing k"@,
            ParseError::InvalidK => "Invalid k value"@,
            ParseError::MissingKey1 => "Missing key1"@,
            ParseError::MissingKey2 => "Missing key2"@,
            ParseError::MissingScalar => "Missing scalar"@,
            ParseError::InvalidScalar => "Invalid scalar value"@,
        }
    }

    /// The diagnostic shown to the client.
    pub fn message(&self) -> (r: &'static str)
        ensures
            r@ == self.spec_message(),
    {
        match self {
            ParseError::Empty => "Empty command",
            ParseError::Unknown => "Unknown command",
            ParseError::InvalidInsert => "Invalid INSERT command",
            ParseError::InvalidNamedInsert => "Invalid NAMED_INSERT command",
            ParseError::InvalidGet => "Invalid GET command",
            ParseError::InvalidRemove => "Invalid REMOVE command",
            ParseError::InvalidDump => "Invalid DUMP command",
            ParseError::MissingKey => "Missing key",
            ParseError::MissingK => "Missing k",
            ParseError::InvalidK => "Invalid k value",
            ParseError::MissingKey1 => "Missing key1",
            ParseError::MissingKey2 => "Missing key2",
            ParseError::MissingScalar => "Missing scalar",
            ParseError::InvalidScalar => "Invalid scalar value",
        }
    }
}

/// A parse result as mathematical values.
pub open spec fn result_view(r: Result<Command, ParseError>) -> Result<CommandView, ParseError> {
    match r {
        Ok(c) => Ok(c@),
        Err(e) => Err(e),
    }
}

/// The command that words `t` form, `w` being the first word in lower case.
pub open spec fn command_of(w: Seq<char>, t: Seq<Seq<char>>) -> Result<CommandView, ParseError> {
    if t.len() == 0 {
        Err(ParseError::Empty)
    } else if w == "ping"@ {
        Ok(CommandView::Ping)
    } else if w == "insert"@ {
        if t.len() < 2 {
            Err(ParseError::InvalidInsert)
        } else {
            Ok(CommandView::Insert(number_words(t.subrange(1, t.len() as int))))
        }
    } else if w == "named_insert"@ {
        if t.len() < 3 {
            Err(ParseError::InvalidNamedInsert)
        } else {
            Ok(CommandView::NamedInsert(t[1], number_words(t.subrange(2, t.len() as int))))
        }
    } else if w == "get"@ {
        if t.len() != 2 {
            Err(ParseError::InvalidGet)
        } else {
            Ok(CommandView::Get(t[1]))
        }
    } else if w == "remove"@ {
        if t.len() != 2 {
            Err(ParseError::InvalidRemove)
        } else {
            Ok(CommandView::Remove(t[1]))
        }
    } else if w == "knn"@ {
        if t.len() < 2 {
            Err(ParseError::MissingKey)
        } else if t.len() < 3 {
            Err(ParseError::MissingK)
        } else {
            match usize_of_text(t[2]) {
                Some(k) => Ok(CommandView::KNearestNeighbors(t[1], k)),
                None => Err(ParseError::InvalidK),
            }
        }
    } else if w == "vadd"@ || w == "vsub"@ || w == "vcosine"@ {
        if t.len() < 2 {
            Err(ParseError::MissingKey1)
        } else if t.len() < 3 {
            Err(ParseError::MissingKey2)
        } else if w == "vadd"@ {
            Ok(CommandView::VectorAddition(t[1], t[2]))
        } else if w == "vsub"@ {
            Ok(CommandView::VectorSubtraction(t[1], t[2]))
        } else {
            Ok(CommandView::CosineSimilarity(t[1], t[2]))
        }
    } else if w == "vscale"@ {
        if t.len() < 2 {
            Err(ParseError::MissingKey)
        } else if t.len() < 3 {
            Err(ParseError::MissingScalar)
        } else if !is_float_text(t[2]) {
            Err(ParseError::InvalidScalar)
        } else {
            Ok(CommandView::VectorScaling(t[1], t[2]))
        }
    } else if w == "dump"@ {
        if t.len() != 2 {
            Err(ParseError::InvalidDump)
        } else {
            Ok(CommandView::Dump(t[1]))
        }
    } else {
        Err(ParseError::Unknown)
    }
}

fn is_word(w: &String, lit: &str) -> (r: bool)
    ensures
        r == (w@ == lit@),
{
    *w == lit.to_owned()
}

/// The words of `words` from position `from` on that are floating-point
/// literals.
fn number_words_from(words: &Vec<String>, from: usize) -> (r: Vec<String>)
    requires
        from <= words.len(),
    ensures
        texts(r@) == number_words(texts(words@).subrange(from as int, words@.len() as int)),
{
    let mut r: Vec<String> = Vec::new();
    let mut i: usize = from;
    while i < words.len()
        invariant
            from <= i <= words.len(),
            texts(r@) == number_words(texts(words@).subrange(from as int, i as int)),
        decreases words.len() - i,
    {
        let ghost before = texts(words@).subrange(from as int, i as int);
        let ghost after = texts(words@).subrange(from as int, i + 1);
        proof {
            assert(after.drop_last() =~= before);
            assert(after.last() == words@[i as int]@);
            reveal(Seq::filter);
        }
        if is_float_word(&words[i]) {
            let w = words[i].clone();
            proof {
                assert(texts(r@.push(w)) =~= texts(r@).push(w@));
            }
            r.push(w);
        }
        i += 1;
    }
    r
}

/// The command that `words` form, given the first word in lower case as
/// `command_word`.
pub fn command_from_words(command_word: &String, words: &Vec<String>) -> (r: Result<Command, ParseError>)
    ensures
        result_view(r) == command_of(command_word@, texts(words@)),
{
    let n = words.len();
    let ghost t = texts(words@);
    if n == 0 {
        return Err(ParseError::Empty);
    }
    if is_word(command_word, "ping") {
        Ok(Command::Ping)
    } else if is_word(command_word, "insert") {
        if n < 2 {
            Err(ParseError::InvalidInsert)
        } else {
            Ok(Command::Insert(number_words_from(words, 1)))
        }
    } else if is_word(command_word, "named_insert") {
        if n < 3 {
            Err(ParseError::InvalidNamedInsert)
        } else {
            Ok(Command::NamedInsert(words[1].clone(), number_words_from(words, 2)))
        }
    } else if is_word(command_word, "get") {
        if n != 2 {
            Err(ParseError::InvalidGet)
        } else {
            Ok(Command::Get(words[1].clone()))
        }
    } else if is_word(command_word, "remove") {
        if n != 2 {
            Err(ParseError::InvalidRemove)
        } else {
            Ok(Command::Remove(words[1].clone()))
        }
    } else if is_word(command_word, "knn") {
        if n < 2 {
            Err(ParseError::MissingKey)
        } else if n < 3 {
            Err(ParseError::MissingK)
        } else {
            match parse_usize(words[2].as_str()) {
                Some(k) => Ok(Command::KNearestNeighbors(words[1].clone(), k)),
                None => Err(ParseError::InvalidK),
            }
        }
    } else if is_word(command_word, "vadd") || is_word(command_word, "vsub") || is_word(command_word, "vcosine") {
        if n < 2 {
            Err(ParseError::MissingKey1)
        } else if n < 3 {
            Err(ParseError::MissingKey2)
        } else if is_word(command_word, "vadd") {
            Ok(Command::VectorAddition(words[1].clone(), words[2].clone()))
        } else if is_word(command_word, "vsub") {
            Ok(Command::VectorSubtraction(words[1].clone(), words[2].clone()))
        } else {
            Ok(Command::CosineSimilarity(words[1].clone(), words[2].clone()))
        }
    } else if is_word(command_word, "vscale") {
        if n < 2 {
            Err(ParseError::MissingKey)
        } else if n < 3 {
            Err(ParseError::MissingScalar)
        } else if !is_float_word(&words[2]) {
            Err(ParseError::InvalidScalar)
        } else {
            Ok(Command::VectorScaling(words[1].clone(), words[2].clone()))
        }
    } else if is_word(command_word, "dump") {
        if n != 2 {
            Err(ParseError::InvalidDump)
        } else {
            Ok(Command::Dump(words[1].clone()))
        }
    } else {
        Err(ParseError::Unknown)
    }
}

/// The command that a line holds.
pub fn parse_command(input: &str) -> (r: Result<Command, ParseError>)
    ensures
        result_view(r) == (if words_of(input@).len() == 0 {
            Err(ParseError::Empty)
        } else {
            command_of(lower_of(words_of(input@)[0]), words_of(input@))
        }),
{
    let words = split_words(input);
    if words.len() == 0 {
        return Err(ParseError::Empty);
    }
    let command_word = lowercase(words[0].as_str());
    command_from_words(&command_word, &words)
}

} // verus!
