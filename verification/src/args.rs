//! The argument list of an annotation, such as `added = 16, removed = 18`.
//!
//! The list is a sequence of items, separated by commas; a comma may follow the
//! last item. An item is a key, `=` and one value. A key is written like a
//! path (`a`, `a::b`, `::a`), and only the plain keys `added` and `removed` are
//! known. A value is an integer literal that fits a level, or one of the
//! identifiers `HEAD` and `NEXT`. Where a key occurs twice, the later value
//! stands.

use crate::decimal::{
    decimal, decimal_string, lemma_decimal_value_of_decimal, numeral_u32, parse_decimal,
};
use crate::levels::{API_LEVEL_HEAD, API_LEVEL_NEXT};
use crate::range::Availability;
use crate::tokens::{lex, lexed, ArgToken, ArgTokenView};
use vstd::prelude::*;
use vstd::string::*;

verus! {

/// Why an argument list was refused.
#[derive(Debug, PartialEq, Eq)]
pub enum ParseError {
    /// The text is not a sequence of tokens.
    NotTokens,
    /// Where a key should stand there is something else, or nothing.
    ExpectedKey,
    /// The key, held here as it was written, is neither `added` nor `removed`.
    UnsupportedProperty(String),
    /// No `=` follows the key.
    MissingValue,
    /// The value is neither an integer that fits a level nor `HEAD` or `NEXT`.
    InvalidApiLevel,
    /// Something other than a comma follows a value.
    ExpectedComma,
}

/// What a [`ParseError`] holds, as a mathematical value.
pub enum ParseErrorView {
    NotTokens,
    ExpectedKey,
    UnsupportedProperty(Seq<char>),
    MissingValue,
    InvalidApiLevel,
    ExpectedComma,
}

impl View for ParseError {
    type V = ParseErrorView;

    open spec fn view(&self) -> ParseErrorView {
        match self {
            ParseError::NotTokens => ParseErrorView::NotTokens,
            ParseError::ExpectedKey => ParseErrorView::ExpectedKey,
            ParseError::UnsupportedProperty(key) => ParseErrorView::UnsupportedProperty(key@),
            ParseError::MissingValue => ParseErrorView::MissingValue,
            ParseError::InvalidApiLevel => ParseErrorView::InvalidApiLevel,
            ParseError::ExpectedComma => ParseErrorView::ExpectedComma,
        }
    }
}

/// The words in which `error` is reported. An unknown key is named.
pub open spec fn message_of(error: ParseErrorView) -> Seq<char> {
    match error {
        ParseErrorView::NotTokens => "the arguments are not a sequence of tokens"@,
        ParseErrorView::ExpectedKey => "expected a property, `added` or `removed`"@,
        ParseErrorView::UnsupportedProperty(key) => "unsupported available property `"@ + key
            + "`"@,
        ParseErrorView::MissingValue => "expected `=`"@,
        ParseErrorView::InvalidApiLevel => "Invalid API level"@,
        ParseErrorView::ExpectedComma => "expected `,`"@,
    }
}

impl ParseError {
    /// The words in which the error is reported.
    pub fn message(&self) -> (text: String)
        ensures
            text@ == message_of(self@),
    {
        match self {
            ParseError::NotTokens => String::from_str("the arguments are not a sequence of tokens"),
            ParseError::ExpectedKey => String::from_str("expected a property, `added` or `removed`"),
            ParseError::UnsupportedProperty(key) => {
                let mut text = String::from_str("unsupported available property `");
                text.append(key.as_str());
                text.append("`");
                text
            },
            ParseError::MissingValue => String::from_str("expected `=`"),
            ParseError::InvalidApiLevel => String::from_str("Invalid API level"),
            ParseError::ExpectedComma => String::from_str("expected `,`"),
        }
    }
}

/// The outcome of a parse, with the error taken by its view.
pub open spec fn outcome_view(out: Result<Availability, ParseError>) -> Result<
    Availability,
    ParseErrorView,
> {
    match out {
        Ok(range) => Ok(range),
        Err(error) => Err(error@),
    }
}

/// A key as it was read: its text, whether it is a plain identifier, and the
/// position of the token after it.
pub struct KeyView {
    pub text: Seq<char>,
    pub plain: bool,
    pub end: int,
}

/// An item as it was read: its key, which is `added` or `removed`, the level
/// of its value, and the position of the token after it.
pub struct ItemView {
    pub key: Seq<char>,
    pub level: u32,
    pub end: int,
}

/// Whether the token at `pos` is the punctuation mark `c`.
pub open spec fn is_punct_at(tokens: Seq<ArgTokenView>, pos: int, c: char) -> bool {
    &&& 0 <= pos < tokens.len()
    &&& tokens[pos] matches ArgTokenView::Punct(found, _)
    &&& found == c
}

/// Whether a path separator `::` starts at `pos`: two colons, the first of
/// them joined to the second.
pub open spec fn is_separator_at(tokens: Seq<ArgTokenView>, pos: int) -> bool {
    &&& 0 <= pos < tokens.len()
    &&& tokens[pos] == ArgTokenView::Punct(':', true)
    &&& is_punct_at(tokens, pos + 1, ':')
}

/// The identifier at `pos`, if an identifier stands there.
pub open spec fn ident_at(tokens: Seq<ArgTokenView>, pos: int) -> Option<Seq<char>> {
    if 0 <= pos < tokens.len() {
        match tokens[pos] {
            ArgTokenView::Ident(name) => Some(name),
            _ => None,
        }
    } else {
        None
    }
}

/// Reads the further segments of a key whose text so far is `text`, from
/// `pos` on: each is `::` and an identifier.
pub open spec fn key_rest(tokens: Seq<ArgTokenView>, pos: int, text: Seq<char>) -> Result<
    (Seq<char>, int),
    ParseErrorView,
>
    decreases tokens.len() - pos,
{
    if is_separator_at(tokens, pos) {
        match ident_at(tokens, pos + 2) {
            Some(name) => key_rest(tokens, pos + 3, text + "::"@ + name),
            None => Err(ParseErrorView::ExpectedKey),
        }
    } else {
        Ok((text, pos))
    }
}

/// Reads the key that starts at `pos`: `::` or nothing, an identifier, and
/// further segments.
pub open spec fn key_at(tokens: Seq<ArgTokenView>, pos: int) -> Result<KeyView, ParseErrorView> {
    let rooted = is_separator_at(tokens, pos);
    let start = if rooted {
        pos + 2
    } else {
        pos
    };
    let lead = if rooted {
        "::"@
    } else {
        Seq::<char>::empty()
    };
    match ident_at(tokens, start) {
        Some(name) => match key_rest(tokens, start + 1, lead + name) {
            Ok((text, end)) => Ok(KeyView { text, plain: !rooted && end == start + 1, end }),
            Err(error) => Err(error),
        },
        None => Err(ParseErrorView::ExpectedKey),
    }
}

/// Whether `key` is one of the two known keys.
pub open spec fn is_known_key(key: KeyView) -> bool {
    key.plain && (key.text == "added"@ || key.text == "removed"@)
}

/// The level that a value token denotes, if it denotes one.
pub open spec fn level_of(token: ArgTokenView) -> Option<u32> {
    match token {
        ArgTokenView::Int(digits) => numeral_u32(digits),
        ArgTokenView::Ident(name) => if name == "HEAD"@ {
            Some(API_LEVEL_HEAD)
        } else if name == "NEXT"@ {
            Some(API_LEVEL_NEXT)
        } else {
            None
        },
        _ => None,
    }
}

/// The level that the token at `pos` denotes, if a token stands there and
/// denotes one.
pub open spec fn level_at(tokens: Seq<ArgTokenView>, pos: int) -> Option<u32> {
    if 0 <= pos < tokens.len() {
        level_of(tokens[pos])
    } else {
        None
    }
}

/// Reads the item that starts at `pos`: a known key, `=` and a level.
pub open spec fn item_at(tokens: Seq<ArgTokenView>, pos: int) -> Result<ItemView, ParseErrorView> {
    match key_at(tokens, pos) {
        Err(error) => Err(error),
        Ok(key) => if !is_known_key(key) {
            Err(ParseErrorView::UnsupportedProperty(key.text))
        } else if !is_punct_at(tokens, key.end, '=') {
            Err(ParseErrorView::MissingValue)
        } else {
            match level_at(tokens, key.end + 1) {
                Some(level) => Ok(ItemView { key: key.text, level, end: key.end + 2 }),
                None => Err(ParseErrorView::InvalidApiLevel),
            }
        },
    }
}

/// The range `range` after the item `key = level`.
pub open spec fn with_bound(range: Availability, key: Seq<char>, level: u32) -> Availability {
    if key == "added"@ {
        Availability { added: Some(level), removed: range.removed }
    } else {
        Availability { added: range.added, removed: Some(level) }
    }
}

/// Reads the items from `pos` to the end of the list into `range`, where an
/// item is to start at `pos`. After an item the list ends, or a comma follows
/// and then the list ends or the next item starts.
pub open spec fn parse_items(tokens: Seq<ArgTokenView>, pos: int, range: Availability) -> Result<
    Availability,
    ParseErrorView,
>
    decreases tokens.len() - pos,
{
    match item_at(tokens, pos) {
        Err(error) => Err(error),
        Ok(item) => {
            let read = with_bound(range, item.key, item.level);
            if item.end >= tokens.len() {
                Ok(read)
            } else if !is_punct_at(tokens, item.end, ',') {
                Err(ParseErrorView::ExpectedComma)
            } else if item.end + 1 >= tokens.len() {
                Ok(read)
            } else {
                proof {
                    lemma_item_advances(tokens, pos);
                }
                parse_items(tokens, item.end + 1, read)
            }
        },
    }
}

/// The range that the tokens of an argument list denote. An empty list
/// denotes the range without bounds.
pub open spec fn parse_list(tokens: Seq<ArgTokenView>) -> Result<Availability, ParseErrorView> {
    if tokens.len() == 0 {
        Ok(Availability { added: None, removed: None })
    } else {
        parse_items(tokens, 0, Availability { added: None, removed: None })
    }
}

/// The range that the text of an argument list denotes.
pub open spec fn parse_text(text: Seq<char>) -> Result<Availability, ParseErrorView> {
    match lexed(text) {
        Some(tokens) => parse_list(tokens),
        None => Err(ParseErrorView::NotTokens),
    }
}

/// The further segments of a key end within the list, no earlier than they
/// start.
pub proof fn lemma_key_rest_advances(tokens: Seq<ArgTokenView>, pos: int, text: Seq<char>)
    requires
        pos <= tokens.len(),
    ensures
        key_rest(tokens, pos, text) matches Ok((_, end)) ==> pos <= end <= tokens.len(),
    decreases tokens.len() - pos,
{
    if is_separator_at(tokens, pos) {
        match ident_at(tokens, pos + 2) {
            Some(name) => {
                lemma_key_rest_advances(tokens, pos + 3, text + "::"@ + name);
            },
            None => {},
        }
    }
}

/// A key takes up one token at least, and ends within the list.
pub proof fn lemma_key_advances(tokens: Seq<ArgTokenView>, pos: int)
    ensures
        key_at(tokens, pos) matches Ok(key) ==> pos < key.end <= tokens.len(),
{
    let rooted = is_separator_at(tokens, pos);
    let start = if rooted {
        pos + 2
    } else {
        pos
    };
    let lead = if rooted {
        "::"@
    } else {
        Seq::<char>::empty()
    };
    match ident_at(tokens, start) {
        Some(name) => {
            lemma_key_rest_advances(tokens, start + 1, lead + name);
        },
        None => {},
    }
}

/// An item takes up three tokens at least, and ends within the list.
pub proof fn lemma_item_advances(tokens: Seq<ArgTokenView>, pos: int)
    ensures
        item_at(tokens, pos) matches Ok(item) ==> pos + 3 <= item.end <= tokens.len(),
{
    lemma_key_advances(tokens, pos);
}

/// Whether `text` reads `word`.
fn is_text(text: &String, word: &str) -> (same: bool)
    ensures
        same == (text@ == word@),
{
    let other = String::from_str(word);
    *text == other
}

fn punct_at(tokens: &[ArgToken], pos: usize, c: char) -> (found: bool)
    ensures
        found == is_punct_at(tokens.deep_view(), pos as int, c),
{
    if pos < tokens.len() {
        match &tokens[pos] {
            ArgToken::Punct(mark, _) => *mark == c,
            _ => false,
        }
    } else {
        false
    }
}

fn separator_at(tokens: &[ArgToken], pos: usize) -> (found: bool)
    ensures
        found == is_separator_at(tokens.deep_view(), pos as int),
{
    if pos < tokens.len() {
        match &tokens[pos] {
            ArgToken::Punct(mark, joint) => *mark == ':' && *joint && punct_at(tokens, pos + 1, ':'),
            _ => false,
        }
    } else {
        false
    }
}

fn name_at(tokens: &[ArgToken], pos: usize) -> (name: Option<&String>)
    ensures
        name.deep_view() == ident_at(tokens.deep_view(), pos as int),
{
    if pos < tokens.len() {
        match &tokens[pos] {
            ArgToken::Ident(name) => Some(name),
            _ => None,
        }
    } else {
        None
    }
}

struct Key {
    text: String,
    plain: bool,
    end: usize,
}

impl View for Key {
    type V = KeyView;

    closed spec fn view(&self) -> KeyView {
        KeyView { text: self.text@, plain: self.plain, end: self.end as int }
    }
}

enum Bound {
    Added,
    Removed,
}

struct Item {
    bound: Bound,
    level: u32,
    end: usize,
}

impl View for Item {
    type V = ItemView;

    closed spec fn view(&self) -> ItemView {
        ItemView {
            key: match self.bound {
                Bound::Added => "added"@,
                Bound::Removed => "removed"@,
            },
            level: self.level,
            end: self.end as int,
        }
    }
}

#[verifier::loop_isolation(false)]
fn read_key(tokens: &[ArgToken], pos: usize) -> (out: Result<Key, ParseError>)
    requires
        pos < tokens.len(),
    ensures
        match out {
            Ok(key) => key_at(tokens.deep_view(), pos as int) == Ok::<KeyView, ParseErrorView>(key@),
            Err(error) => key_at(tokens.deep_view(), pos as int) == Err::<KeyView, ParseErrorView>(
                error@,
            ),
        },
{
    let ghost views = tokens.deep_view();
    let rooted = separator_at(tokens, pos);
    let start = if rooted {
        pos + 2
    } else {
        pos
    };
    let mut text = String::new();
    if rooted {
        text.append("::");
    }
    match name_at(tokens, start) {
        None => Err(ParseError::ExpectedKey),
        Some(name) => {
            let ghost first = text@ + name@;
            text.append(name.as_str());
            let mut end = start + 1;
            while separator_at(tokens, end)
                invariant
                    views == tokens.deep_view(),
                    start < end <= tokens.len(),
                    key_rest(views, start + 1, first) == key_rest(views, end as int, text@),
                decreases tokens.len() - end,
            {
                match name_at(tokens, end + 2) {
                    None => {
                        return Err(ParseError::ExpectedKey);
                    },
                    Some(name) => {
                        text.append("::");
                        text.append(name.as_str());
                        end = end + 3;
                    },
                }
            }
            Ok(Key { text, plain: !rooted && end == start + 1, end })
        },
    }
}

fn read_level(tokens: &[ArgToken], pos: usize) -> (level: Option<u32>)
    ensures
        level == level_at(tokens.deep_view(), pos as int),
{
    if pos >= tokens.len() {
        return None;
    }
    match &tokens[pos] {
        ArgToken::Int(digits) => parse_decimal(digits.as_str()),
        ArgToken::Ident(name) => {
            if is_text(name, "HEAD") {
                Some(API_LEVEL_HEAD)
            } else if is_text(name, "NEXT") {
                Some(API_LEVEL_NEXT)
            } else {
                None
            }
        },
        _ => None,
    }
}

fn read_item(tokens: &[ArgToken], pos: usize) -> (out: Result<Item, ParseError>)
    requires
        pos < tokens.len(),
    ensures
        match out {
            Ok(item) => item_at(tokens.deep_view(), pos as int) == Ok::<ItemView, ParseErrorView>(
                item@,
            ),
            Err(error) => item_at(tokens.deep_view(), pos as int) == Err::<
                ItemView,
                ParseErrorView,
            >(error@),
        },
{
    proof {
        lemma_key_advances(tokens.deep_view(), pos as int);
    }
    let key = match read_key(tokens, pos) {
        Ok(key) => key,
        Err(error) => {
            return Err(error);
        },
    };
    let bound = if key.plain && is_text(&key.text, "added") {
        Bound::Added
    } else if key.plain && is_text(&key.text, "removed") {
        Bound::Removed
    } else {
        return Err(ParseError::UnsupportedProperty(key.text));
    };
    if !punct_at(tokens, key.end, '=') {
        return Err(ParseError::MissingValue);
    }
    match read_level(tokens, key.end + 1) {
        Some(level) => Ok(Item { bound, level, end: key.end + 2 }),
        None => Err(ParseError::InvalidApiLevel),
    }
}

/// Reads the tokens of an argument list.
pub fn parse_tokens(tokens: &[ArgToken]) -> (out: Result<Availability, ParseError>)
    ensures
        outcome_view(out) == parse_list(tokens.deep_view()),
{
    let ghost views = tokens.deep_view();
    let mut range = Availability { added: None, removed: None };
    if tokens.len() == 0 {
        return Ok(range);
    }
    let mut pos: usize = 0;
    loop
        invariant
            views == tokens.deep_view(),
            pos < tokens.len(),
            parse_list(views) == parse_items(views, pos as int, range),
        decreases tokens.len() - pos,
    {
        proof {
            lemma_item_advances(views, pos as int);
            reveal_strlit("added");
            reveal_strlit("removed");
        }
        let item = match read_item(tokens, pos) {
            Ok(item) => item,
            Err(error) => {
                return Err(error);
            },
        };
        match item.bound {
            Bound::Added => {
                range = Availability { added: Some(item.level), removed: range.removed };
            },
            Bound::Removed => {
                range = Availability { added: range.added, removed: Some(item.level) };
            },
        }
        if item.end >= tokens.len() {
            return Ok(range);
        }
        if !punct_at(tokens, item.end, ',') {
            return Err(ParseError::ExpectedComma);
        }
        if item.end + 1 >= tokens.len() {
            return Ok(range);
        }
        pos = item.end + 1;
    }
}

/// Reads the text of an argument list.
pub fn parse_args(text: &str) -> (out: Result<Availability, ParseError>)
    ensures
        outcome_view(out) == parse_text(text@),
{
    match lex(text) {
        Some(tokens) => parse_tokens(tokens.as_slice()),
        None => Err(ParseError::NotTokens),
    }
}

/// Whatever list is accepted from `pos` on, it sets a bound, and it keeps the
/// bounds that were set before it.
pub proof fn lemma_items_set_a_bound(tokens: Seq<ArgTokenView>, pos: int, range: Availability)
    ensures
        parse_items(tokens, pos, range) matches Ok(read) ==> {
            &&& !read.unspecified()
            &&& range.added is Some ==> read.added is Some
            &&& range.removed is Some ==> read.removed is Some
        },
    decreases tokens.len() - pos,
{
    if let Ok(item) = item_at(tokens, pos) {
        lemma_item_advances(tokens, pos);
        if item.end + 1 < tokens.len() {
            lemma_items_set_a_bound(tokens, item.end + 1, with_bound(range, item.key, item.level));
        }
    }
}

/// An accepted list denotes the range without bounds only where it is empty.
pub proof fn lemma_no_bound_only_from_empty_list(tokens: Seq<ArgTokenView>)
    ensures
        parse_list(tokens) matches Ok(read) ==> (read.unspecified() <==> tokens.len() == 0),
{
    lemma_items_set_a_bound(tokens, 0, Availability { added: None, removed: None });
}

/// The token by which `level` is written as a value: the sentinels by their
/// identifiers, any other level as a decimal literal.
pub open spec fn level_token(level: u32) -> ArgTokenView {
    if level == API_LEVEL_HEAD {
        ArgTokenView::Ident("HEAD"@)
    } else if level == API_LEVEL_NEXT {
        ArgTokenView::Ident("NEXT"@)
    } else {
        ArgTokenView::Int(decimal(level as nat))
    }
}

/// The tokens of the item `key = level`.
pub open spec fn item_tokens(key: Seq<char>, level: u32) -> Seq<ArgTokenView> {
    seq![ArgTokenView::Ident(key), ArgTokenView::Punct('=', false), level_token(level)]
}

/// The text by which `level` is written as a value.
pub open spec fn level_text(level: u32) -> Seq<char> {
    if level == API_LEVEL_HEAD {
        "HEAD"@
    } else if level == API_LEVEL_NEXT {
        "NEXT"@
    } else {
        decimal(level as nat)
    }
}

/// The text of the item `key = level`.
pub open spec fn item_text(key: Seq<char>, level: u32) -> Seq<char> {
    key + " = "@ + level_text(level)
}

impl Availability {
    /// The argument list that denotes this range, as tokens: the bounds that
    /// are present, `added` first.
    pub open spec fn arg_tokens(self) -> Seq<ArgTokenView> {
        match (self.added, self.removed) {
            (None, None) => Seq::empty(),
            (Some(added), None) => item_tokens("added"@, added),
            (None, Some(removed)) => item_tokens("removed"@, removed),
            (Some(added), Some(removed)) => item_tokens("added"@, added) + seq![
                ArgTokenView::Punct(',', false),
            ] + item_tokens("removed"@, removed),
        }
    }

    /// The argument list that denotes this range, as text.
    pub open spec fn arg_text(self) -> Seq<char> {
        match (self.added, self.removed) {
            (None, None) => Seq::empty(),
            (Some(added), None) => item_text("added"@, added),
            (None, Some(removed)) => item_text("removed"@, removed),
            (Some(added), Some(removed)) => item_text("added"@, added) + ", "@ + item_text(
                "removed"@,
                removed,
            ),
        }
    }

    /// Writes the range as the tokens of an argument list.
    pub fn to_arg_tokens(&self) -> (tokens: Vec<ArgToken>)
        ensures
            tokens.deep_view() == self.arg_tokens(),
    {
        let mut tokens: Vec<ArgToken> = Vec::new();
        if let Some(added) = self.added {
            push_item(&mut tokens, "added", added);
        }
        if let Some(removed) = self.removed {
            if self.added.is_some() {
                let ghost before = tokens.deep_view();
                tokens.push(ArgToken::Punct(',', false));
                assert(tokens.deep_view() == before + seq![ArgTokenView::Punct(',', false)]);
            }
            push_item(&mut tokens, "removed", removed);
        }
        assert(tokens.deep_view() == self.arg_tokens());
        tokens
    }

    /// Writes the range as the text of an argument list.
    pub fn to_arg_text(&self) -> (text: String)
        ensures
            text@ == self.arg_text(),
    {
        let mut text = String::new();
        if let Some(added) = self.added {
            push_item_text(&mut text, "added", added);
        }
        if let Some(removed) = self.removed {
            if self.added.is_some() {
                text.append(", ");
            }
            push_item_text(&mut text, "removed", removed);
        }
        assert(text@ == self.arg_text());
        text
    }
}

fn level_string(level: u32) -> (text: String)
    ensures
        text@ == level_text(level),
{
    if level == API_LEVEL_HEAD {
        String::from_str("HEAD")
    } else if level == API_LEVEL_NEXT {
        String::from_str("NEXT")
    } else {
        decimal_string(level)
    }
}

fn push_item(tokens: &mut Vec<ArgToken>, key: &str, level: u32)
    ensures
        final(tokens).deep_view() == old(tokens).deep_view() + item_tokens(key@, level),
{
    let ghost before = tokens.deep_view();
    let value = if level == API_LEVEL_HEAD {
        ArgToken::Ident(String::from_str("HEAD"))
    } else if level == API_LEVEL_NEXT {
        ArgToken::Ident(String::from_str("NEXT"))
    } else {
        ArgToken::Int(decimal_string(level))
    };
    assert(value@ == level_token(level));
    tokens.push(ArgToken::Ident(String::from_str(key)));
    tokens.push(ArgToken::Punct('=', false));
    tokens.push(value);
    assert(tokens.deep_view() == before + item_tokens(key@, level));
}

fn push_item_text(text: &mut String, key: &str, level: u32)
    ensures
        final(text)@ == old(text)@ + item_text(key@, level),
{
    let value = level_string(level);
    text.append(key);
    text.append(" = ");
    text.append(value.as_str());
    assert(text@ == old(text)@ + item_text(key@, level));
}

/// Reading the tokens that were written for a range gives that range back,
/// whatever its bounds are and whether they are present.
pub proof fn lemma_arg_tokens_round_trip(range: Availability)
    ensures
        parse_list(range.arg_tokens()) == Ok::<Availability, ParseErrorView>(range),
{
    reveal_strlit("added");
    reveal_strlit("removed");
    let tokens = range.arg_tokens();
    let none = Availability { added: None, removed: None };
    match (range.added, range.removed) {
        (None, None) => {},
        (Some(added), None) => {
            assert(tokens.subrange(0, 3) =~= item_tokens("added"@, added));
            lemma_written_item(tokens, 0, "added"@, added);
        },
        (None, Some(removed)) => {
            assert(tokens.subrange(0, 3) =~= item_tokens("removed"@, removed));
            lemma_written_item(tokens, 0, "removed"@, removed);
        },
        (Some(added), Some(removed)) => {
            assert(tokens.subrange(0, 3) =~= item_tokens("added"@, added));
            assert(tokens.subrange(4, 7) =~= item_tokens("removed"@, removed));
            lemma_written_item(tokens, 0, "added"@, added);
            lemma_written_item(tokens, 4, "removed"@, removed);
            assert(parse_items(tokens, 0, none) == parse_items(
                tokens,
                4,
                with_bound(none, "added"@, added),
            ));
        },
    }
}

/// A written item is read as it was written.
proof fn lemma_written_item(tokens: Seq<ArgTokenView>, pos: int, key: Seq<char>, level: u32)
    requires
        0 <= pos,
        pos + 3 <= tokens.len(),
        tokens.subrange(pos, pos + 3) == item_tokens(key, level),
        key == "added"@ || key == "removed"@,
    ensures
        item_at(tokens, pos) == Ok::<ItemView, ParseErrorView>(
            ItemView { key, level, end: pos + 3 },
        ),
{
    reveal_strlit("HEAD");
    reveal_strlit("NEXT");
    let item = tokens.subrange(pos, pos + 3);
    assert(tokens[pos] == item[0]);
    assert(tokens[pos + 1] == item[1]);
    assert(tokens[pos + 2] == item[2]);
    assert(!is_separator_at(tokens, pos));
    assert(ident_at(tokens, pos) == Some(key));
    assert(!is_separator_at(tokens, pos + 1));
    assert(Seq::<char>::empty() + key =~= key);
    assert(key_rest(tokens, pos + 1, Seq::<char>::empty() + key) == Ok::<
        (Seq<char>, int),
        ParseErrorView,
    >((key, pos + 1)));
    assert(key_at(tokens, pos) == Ok::<KeyView, ParseErrorView>(
        KeyView { text: key, plain: true, end: pos + 1 },
    ));
    assert(is_punct_at(tokens, pos + 1, '='));
    assert(level_of(level_token(level)) == Some(level)) by {
        if level == API_LEVEL_HEAD {
        } else if level == API_LEVEL_NEXT {
            assert("NEXT"@[0] != "HEAD"@[0]);
        } else {
            lemma_decimal_value_of_decimal(level as nat);
        }
    }
}

} // verus!
