use vstd::prelude::*;

use crate::text::same_text;
use crate::types::{AttrErrorKind, Command, CommandView};

verus! {

/// A token tree at the top level of an attribute's argument list.
#[derive(Debug, Clone, PartialEq, Eq)]
pub enum Token {
    Ident(String),
    /// A punctuation character, and whether it is joined to the next one,
    /// as the first `:` of `::` is.
    Punct(char, bool),
    /// A literal, by its source text (`"role"`, `r"x"`, `42`).
    Literal(String),
    /// A delimited group, whose contents the command grammar never reads.
    Group,
}

pub enum TokenView {
    Ident(Seq<char>),
    Punct(char, bool),
    Literal(Seq<char>),
    Group,
}

impl View for Token {
    type V = TokenView;

    open spec fn view(&self) -> TokenView {
        match self {
            Token::Ident(text) => TokenView::Ident(text@),
            Token::Punct(c, joint) => TokenView::Punct(*c, *joint),
            Token::Literal(text) => TokenView::Literal(text@),
            Token::Group => TokenView::Group,
        }
    }
}

pub open spec fn tokens_view(tokens: Seq<Token>) -> Seq<TokenView> {
    tokens.map_values(|t: Token| t@)
}

pub open spec fn commands_view(commands: Seq<Command>) -> Seq<CommandView> {
    commands.map_values(|c: Command| c@)
}

pub open spec fn names_view(names: Seq<&str>) -> Seq<Seq<char>> {
    names.map_values(|s: &str| s@)
}

/// Every name in `valid` is one of the three commands.
pub open spec fn known_names(valid: Seq<Seq<char>>) -> bool {
    forall|i: int|
        0 <= i < valid.len() ==> {
            let n = #[trigger] valid[i];
            n == "skip"@ || n == "description"@ || n == "rename"@
        }
}

/// The commands that an attribute may hold at all.
pub open spec fn known_commands(names: Seq<&str>) -> bool {
    known_names(names_view(names))
}

pub open spec fn command_result_view(r: Result<Vec<Command>, AttrErrorKind>) -> Result<
    Seq<CommandView>,
    AttrErrorKind,
> {
    match r {
        Ok(commands) => Ok(commands_view(commands@)),
        Err(e) => Err(e),
    }
}

/// The top-level token trees that `proc_macro2` lexes `text` into, or
/// `None` when `text` is not made of Rust tokens.
pub uninterp spec fn lexed(text: Seq<char>) -> Option<Seq<TokenView>>;

pub open spec fn opt_tokens_view(tokens: Option<Vec<Token>>) -> Option<Seq<TokenView>> {
    match tokens {
        Some(tokens) => Some(tokens_view(tokens@)),
        None => None,
    }
}

/// Calls `proc_macro2::TokenStream::from_str` and walks the top-level
/// token trees, keeping each identifier's and literal's text, each
/// punctuation character with its spacing, and only the fact of a group.
/// Claims only that the result is `lexed` of the text.
#[verifier::external_body]
pub(crate) fn lex(text: &str) -> (res: Option<Vec<Token>>)
    ensures
        opt_tokens_view(res) == lexed(text@),
{
    let stream = text.parse::<proc_macro2::TokenStream>().ok()?;
    Some(stream.into_iter().map(|tree| match tree {
        proc_macro2::TokenTree::Ident(ident) => Token::Ident(ident.to_string()),
        proc_macro2::TokenTree::Punct(p) => Token::Punct(p.as_char(), p.spacing() == proc_macro2::Spacing::Joint),
        proc_macro2::TokenTree::Literal(literal) => Token::Literal(literal.to_string()),
        proc_macro2::TokenTree::Group(_) => Token::Group,
    }).collect())
}

/// The string value of a string literal token's text (escapes decoded,
/// raw strings read as written), or `None` when the text is no string literal.
pub uninterp spec fn string_literal_value(text: Seq<char>) -> Option<Seq<char>>;

pub open spec fn opt_string_view(s: Option<String>) -> Option<Seq<char>> {
    match s {
        Some(s) => Some(s@),
        None => None,
    }
}

/// Calls `syn::parse_str::<syn::LitStr>` and `LitStr::value`: the value of
/// a string literal, or `None` when `text` is not one string literal.
/// Claims only that the result is `string_literal_value` of the text.
#[verifier::external_body]
fn literal_string_value(text: &str) -> (res: Option<String>)
    ensures
        opt_string_view(res) == string_literal_value(text@),
{
    syn::parse_str::<syn::LitStr>(text).ok().map(|lit| lit.value())
}

/// Whether the token at `pos` is the punctuation `c`.
pub open spec fn is_punct(tokens: Seq<TokenView>, pos: int, c: char) -> bool {
    &&& 0 <= pos < tokens.len()
    &&& (tokens[pos] matches TokenView::Punct(ch, _) && ch == c)
}

/// Whether the token at `pos` is a literal whose text starts with a digit.
pub open spec fn is_numeric_literal(tokens: Seq<TokenView>, pos: int) -> bool {
    &&& 0 <= pos < tokens.len()
    &&& (tokens[pos] matches TokenView::Literal(text) && text.len() > 0 && '0' <= text[0] <= '9')
}

/// The value of the string literal at `pos`, if a string literal stands there.
pub open spec fn string_literal_at(tokens: Seq<TokenView>, pos: int) -> Option<Seq<char>> {
    if 0 <= pos < tokens.len() {
        match tokens[pos] {
            TokenView::Literal(text) => string_literal_value(text),
            _ => None,
        }
    } else {
        None
    }
}

/// Whether `::` starts at `pos`: a joint `:` followed by a `:`.
pub open spec fn is_path_sep(tokens: Seq<TokenView>, pos: int) -> bool {
    &&& 0 <= pos
    &&& pos + 1 < tokens.len()
    &&& tokens[pos] == TokenView::Punct(':', true)
    &&& tokens[pos + 1] matches TokenView::Punct(ch, _) && ch == ':'
}

pub open spec fn is_ident_at(tokens: Seq<TokenView>, pos: int) -> bool {
    0 <= pos < tokens.len() && tokens[pos] is Ident
}

/// Whether the token at `pos` starts a literal: a literal token, or `-`
/// before a numeric literal.
pub open spec fn is_literal_at(tokens: Seq<TokenView>, pos: int) -> bool {
    ||| 0 <= pos < tokens.len() && tokens[pos] is Literal
    ||| is_punct(tokens, pos, '-') && is_numeric_literal(tokens, pos + 1)
}

/// The error where a command's path should start at `pos` but no
/// identifier stands there.
pub open spec fn path_start_error(tokens: Seq<TokenView>, pos: int) -> AttrErrorKind {
    if pos >= tokens.len() {
        AttrErrorKind::ExpectedNestedAttribute
    } else if is_literal_at(tokens, pos) {
        AttrErrorKind::UnexpectedLiteral
    } else {
        AttrErrorKind::UnexpectedToken
    }
}

/// Reads the `::ident` segments of a path from `pos` on: fails where a
/// `::` is not followed by an identifier.
pub open spec fn path_tail(tokens: Seq<TokenView>, pos: int) -> Result<(), AttrErrorKind>
    decreases tokens.len() - pos,
{
    if is_path_sep(tokens, pos) {
        if is_ident_at(tokens, pos + 2) {
            path_tail(tokens, pos + 3)
        } else {
            Err(AttrErrorKind::ExpectedIdent)
        }
    } else {
        Ok(())
    }
}

/// One command starting at `pos`, with the number of tokens it spans.
/// Its path must be one identifier among `valid`; `rename` then takes
/// `= "literal"`.
pub open spec fn parse_item(tokens: Seq<TokenView>, pos: int, valid: Seq<Seq<char>>) -> Result<
    (CommandView, nat),
    AttrErrorKind,
> {
    if is_path_sep(tokens, pos) {
        if is_ident_at(tokens, pos + 2) {
            match path_tail(tokens, pos + 3) {
                Err(e) => Err(e),
                Ok(_) => Err(AttrErrorKind::UnsupportedCommand),
            }
        } else {
            Err(path_start_error(tokens, pos + 2))
        }
    } else if is_ident_at(tokens, pos) {
        let name = tokens[pos]->Ident_0;
        match path_tail(tokens, pos + 1) {
            Err(e) => Err(e),
            Ok(_) => {
                if is_path_sep(tokens, pos + 1) || !valid.contains(name) {
                    Err(AttrErrorKind::UnsupportedCommand)
                } else if name == "skip"@ {
                    Ok((CommandView::Skip, 1))
                } else if name == "description"@ {
                    Ok((CommandView::Description, 1))
                } else if !is_punct(tokens, pos + 1, '=') {
                    Err(AttrErrorKind::ExpectedEquals)
                } else if string_literal_at(tokens, pos + 2) is Some {
                    Ok((CommandView::Rename(string_literal_at(tokens, pos + 2).unwrap()), 3))
                } else {
                    Err(AttrErrorKind::ExpectedStringLiteral)
                }
            },
        }
    } else {
        Err(path_start_error(tokens, pos))
    }
}

/// The commands from `pos` on: each command is followed by the end of the
/// list, or by `,` and then the end or the next command.
pub open spec fn parse_items(tokens: Seq<TokenView>, pos: int, valid: Seq<Seq<char>>) -> Result<
    Seq<CommandView>,
    AttrErrorKind,
>
    decreases tokens.len() - pos,
{
    if pos < 0 || pos >= tokens.len() {
        Err(AttrErrorKind::ExpectedNestedAttribute)
    } else {
        match parse_item(tokens, pos, valid) {
            Err(e) => Err(e),
            Ok((command, width)) => {
                let next = pos + width;
                if next >= tokens.len() {
                    Ok(seq![command])
                } else if !is_punct(tokens, next, ',') {
                    Err(AttrErrorKind::ExpectedComma)
                } else if next + 1 >= tokens.len() {
                    Ok(seq![command])
                } else {
                    match parse_items(tokens, next + 1, valid) {
                        Ok(rest) => Ok(seq![command] + rest),
                        Err(e) => Err(e),
                    }
                }
            },
        }
    }
}

/// The commands of an argument list `description, rename = "role"`, in the
/// order written; an empty list holds none.
pub open spec fn command_list(tokens: Seq<TokenView>, valid: Seq<Seq<char>>) -> Result<
    Seq<CommandView>,
    AttrErrorKind,
> {
    if tokens.len() == 0 {
        Ok(Seq::empty())
    } else {
        parse_items(tokens, 0, valid)
    }
}

fn punct_at(tokens: &[Token], pos: usize, c: char) -> (res: bool)
    ensures
        res == is_punct(tokens_view(tokens@), pos as int, c),
{
    if pos < tokens.len() {
        match &tokens[pos] {
            Token::Punct(ch, _) => *ch == c,
            _ => false,
        }
    } else {
        false
    }
}

fn path_sep_at(tokens: &[Token], pos: usize) -> (res: bool)
    ensures
        res == is_path_sep(tokens_view(tokens@), pos as int),
{
    if pos < tokens.len() && pos + 1 < tokens.len() {
        match &tokens[pos] {
            Token::Punct(ch, joint) => *ch == ':' && *joint && punct_at(tokens, pos + 1, ':'),
            _ => false,
        }
    } else {
        false
    }
}

fn ident_at(tokens: &[Token], pos: usize) -> (res: bool)
    ensures
        res == is_ident_at(tokens_view(tokens@), pos as int),
{
    pos < tokens.len() && matches!(tokens[pos], Token::Ident(_))
}

fn literal_at(tokens: &[Token], pos: usize) -> (res: bool)
    ensures
        res == is_literal_at(tokens_view(tokens@), pos as int),
{
    if pos < tokens.len() && matches!(tokens[pos], Token::Literal(_)) {
        return true;
    }
    if punct_at(tokens, pos, '-') && pos + 1 < tokens.len() {
        match &tokens[pos + 1] {
            Token::Literal(text) => {
                let n = text.as_str().unicode_len();
                if n > 0 {
                    let c = text.as_str().get_char(0);
                    '0' <= c && c <= '9'
                } else {
                    false
                }
            },
            _ => false,
        }
    } else {
        false
    }
}

fn start_error(tokens: &[Token], pos: usize) -> (res: AttrErrorKind)
    ensures
        res == path_start_error(tokens_view(tokens@), pos as int),
{
    if pos >= tokens.len() {
        AttrErrorKind::ExpectedNestedAttribute
    } else if literal_at(tokens, pos) {
        AttrErrorKind::UnexpectedLiteral
    } else {
        AttrErrorKind::UnexpectedToken
    }
}

fn skip_path_tail(tokens: &[Token], pos: usize) -> (res: Result<(), AttrErrorKind>)
    requires
        pos <= tokens.len(),
    ensures
        res == path_tail(tokens_view(tokens@), pos as int),
{
    let ghost toks = tokens_view(tokens@);
    let mut p = pos;
    while path_sep_at(tokens, p)
        invariant
            p <= tokens.len(),
            toks == tokens_view(tokens@),
            path_tail(toks, pos as int) == path_tail(toks, p as int),
        decreases tokens.len() - p,
    {
        if !ident_at(tokens, p + 2) {
            return Err(AttrErrorKind::ExpectedIdent);
        }
        p = p + 3;
    }
    Ok(())
}

fn contains_name(valid: &[&str], name: &str) -> (res: bool)
    ensures
        res == names_view(valid@).contains(name@),
{
    let mut i: usize = 0;
    while i < valid.len()
        invariant
            i <= valid.len(),
            forall|j: int| 0 <= j < i ==> valid@[j]@ != name@,
        decreases valid.len() - i,
    {
        if same_text(valid[i], name) {
            assert(names_view(valid@)[i as int] == name@);
            return true;
        }
        i = i + 1;
    }
    assert(!names_view(valid@).contains(name@)) by {
        if names_view(valid@).contains(name@) {
            let k = choose|k: int| 0 <= k < valid@.len() && names_view(valid@)[k] == name@;
            assert(valid@[k]@ == name@);
        }
    }
    false
}

fn parse_item_at(tokens: &[Token], pos: usize, valid: &[&str]) -> (res: Result<
    (Command, usize),
    AttrErrorKind,
>)
    requires
        pos < tokens.len(),
        known_commands(valid@),
    ensures
        match res {
            Ok((command, width)) => parse_item(tokens_view(tokens@), pos as int, names_view(valid@))
                == Ok::<(CommandView, nat), AttrErrorKind>((command@, width as nat)),
            Err(e) => parse_item(tokens_view(tokens@), pos as int, names_view(valid@)) == Err::<
                (CommandView, nat),
                AttrErrorKind,
            >(e),
        },
        res matches Ok((_, width)) ==> width <= tokens.len() - pos,
{
    let ghost toks = tokens_view(tokens@);
    let ghost names = names_view(valid@);
    if path_sep_at(tokens, pos) {
        if ident_at(tokens, pos + 2) {
            return match skip_path_tail(tokens, pos + 3) {
                Err(e) => Err(e),
                Ok(_) => Err(AttrErrorKind::UnsupportedCommand),
            };
        } else {
            return Err(start_error(tokens, pos + 2));
        }
    }
    let name = match &tokens[pos] {
        Token::Ident(name) => name,
        _ => {
            return Err(start_error(tokens, pos));
        },
    };
    assert(toks[pos as int] == TokenView::Ident(name@));
    match skip_path_tail(tokens, pos + 1) {
        Err(e) => {
            return Err(e);
        },
        Ok(_) => {},
    }
    if path_sep_at(tokens, pos + 1) || !contains_name(valid, name.as_str()) {
        return Err(AttrErrorKind::UnsupportedCommand);
    }
    if same_text(name.as_str(), "skip") {
        return Ok((Command::Skip, 1));
    }
    if same_text(name.as_str(), "description") {
        return Ok((Command::Description, 1));
    }
    proof {
        let k = choose|k: int| 0 <= k < valid@.len() && names[k] == name@;
        assert(names[k] == valid@[k]@);
        assert(name@ == "rename"@);
    }
    if !punct_at(tokens, pos + 1, '=') {
        return Err(AttrErrorKind::ExpectedEquals);
    }
    if pos + 2 < tokens.len() {
        match &tokens[pos + 2] {
            Token::Literal(text) => match literal_string_value(text.as_str()) {
                Some(value) => {
                    return Ok((Command::Rename(value), 3));
                },
                None => {},
            },
            _ => {},
        }
    }
    Err(AttrErrorKind::ExpectedStringLiteral)
}

/// The commands of an attribute's argument list, given as tokens.
/// `valid` names the commands that the derive accepts.
pub fn parse_command_list(tokens: &[Token], valid: &[&str]) -> (res: Result<
    Vec<Command>,
    AttrErrorKind,
>)
    requires
        known_commands(valid@),
    ensures
        command_result_view(res) == command_list(tokens_view(tokens@), names_view(valid@)),
{
    let ghost toks = tokens_view(tokens@);
    let ghost names = names_view(valid@);
    let mut commands: Vec<Command> = Vec::new();
    if tokens.len() == 0 {
        assert(commands_view(commands@) =~= Seq::<CommandView>::empty());
        return Ok(commands);
    }
    let mut pos: usize = 0;
    loop
        invariant
            pos < tokens.len(),
            toks == tokens_view(tokens@),
            names == names_view(valid@),
            known_commands(valid@),
            command_list(toks, names) == match parse_items(toks, pos as int, names) {
                Ok(rest) => Ok(commands_view(commands@) + rest),
                Err(e) => Err(e),
            },
        decreases tokens.len() - pos,
    {
        let ghost before = commands@;
        let (command, width) = match parse_item_at(tokens, pos, valid) {
            Ok(item) => item,
            Err(e) => {
                return Err(e);
            },
        };
        commands.push(command);
        assert(commands_view(commands@) =~= commands_view(before) + seq![command@]);
        let next = pos + width;
        if next >= tokens.len() {
            return Ok(commands);
        }
        if !punct_at(tokens, next, ',') {
            return Err(AttrErrorKind::ExpectedComma);
        }
        if next + 1 >= tokens.len() {
            return Ok(commands);
        }
        pos = next + 1;
        assert(commands_view(before) + (seq![command@] + Seq::<CommandView>::empty())
            =~= commands_view(commands@));
        proof {
            match parse_items(toks, pos as int, names) {
                Ok(rest) => {
                    assert(commands_view(before) + (seq![command@] + rest) =~= commands_view(
                        commands@,
                    ) + rest);
                },
                Err(_) => {},
            }
        }
    }
}

/// The name a command is written with.
pub open spec fn command_name(command: CommandView) -> Seq<char> {
    match command {
        CommandView::Description => "description"@,
        CommandView::Rename(_) => "rename"@,
        CommandView::Skip => "skip"@,
    }
}

/// Whether each command is one that `valid` names.
pub open spec fn all_named_in(commands: Seq<CommandView>, valid: Seq<Seq<char>>) -> bool {
    forall|i: int| 0 <= i < commands.len() ==> valid.contains(command_name(#[trigger] commands[i]))
}

proof fn lemma_parse_items_named_in(tokens: Seq<TokenView>, pos: int, valid: Seq<Seq<char>>)
    requires
        known_names(valid),
    ensures
        parse_items(tokens, pos, valid) matches Ok(commands) ==> all_named_in(commands, valid),
    decreases tokens.len() - pos,
{
    if 0 <= pos < tokens.len() {
        if let Ok((command, width)) = parse_item(tokens, pos, valid) {
            let name = tokens[pos]->Ident_0;
            assert(valid.contains(command_name(command))) by {
                let k = choose|k: int| 0 <= k < valid.len() && valid[k] == name;
                assert(valid[k] == name);
            }
            let next = pos + width;
            if next + 1 < tokens.len() && is_punct(tokens, next, ',') {
                lemma_parse_items_named_in(tokens, next + 1, valid);
                if let Ok(rest) = parse_items(tokens, next + 1, valid) {
                    let all = seq![command] + rest;
                    assert forall|i: int| 0 <= i < all.len() implies valid.contains(
                        command_name(#[trigger] all[i]),
                    ) by {
                        if i > 0 {
                            assert(all[i] == rest[i - 1]);
                        }
                    }
                }
            }
        }
    }
}

/// An attribute holds only commands that the derive accepts: any other
/// command is refused.
pub proof fn command_list_accepts_only_valid(tokens: Seq<TokenView>, valid: Seq<Seq<char>>)
    requires
        known_names(valid),
    ensures
        command_list(tokens, valid) matches Ok(commands) ==> all_named_in(commands, valid),
{
    if tokens.len() > 0 {
        lemma_parse_items_named_in(tokens, 0, valid);
    }
}

proof fn lemma_path_tail_shift(p: Seq<TokenView>, t: Seq<TokenView>, i: int)
    requires
        0 <= i,
    ensures
        path_tail(p + t, p.len() + i) == path_tail(t, i),
    decreases t.len() - i,
{
    let all = p + t;
    let k = p.len() + i;
    assert(is_path_sep(all, k) == is_path_sep(t, i));
    if is_path_sep(t, i) {
        assert(is_ident_at(all, k + 2) == is_ident_at(t, i + 2));
        if is_ident_at(t, i + 2) {
            lemma_path_tail_shift(p, t, i + 3);
        }
    }
}

proof fn lemma_parse_item_shift(p: Seq<TokenView>, t: Seq<TokenView>, i: int, valid: Seq<Seq<char>>)
    requires
        0 <= i,
    ensures
        parse_item(p + t, p.len() + i, valid) == parse_item(t, i, valid),
{
    let all = p + t;
    let k = p.len() + i;
    assert(is_path_sep(all, k) == is_path_sep(t, i));
    assert(is_path_sep(all, k + 1) == is_path_sep(t, i + 1));
    assert(is_ident_at(all, k) == is_ident_at(t, i));
    assert(is_ident_at(all, k + 2) == is_ident_at(t, i + 2));
    assert(is_punct(all, k + 1, '=') == is_punct(t, i + 1, '='));
    assert(string_literal_at(all, k + 2) == string_literal_at(t, i + 2));
    assert(is_literal_at(all, k) == is_literal_at(t, i));
    assert(is_literal_at(all, k + 2) == is_literal_at(t, i + 2));
    assert(path_start_error(all, k) == path_start_error(t, i));
    assert(path_start_error(all, k + 2) == path_start_error(t, i + 2));
    lemma_path_tail_shift(p, t, i + 1);
    lemma_path_tail_shift(p, t, i + 3);
    if is_ident_at(t, i) {
        assert(all[k] == t[i]);
    }
}

proof fn lemma_parse_items_shift(
    p: Seq<TokenView>,
    t: Seq<TokenView>,
    i: int,
    valid: Seq<Seq<char>>,
)
    requires
        0 <= i,
    ensures
        parse_items(p + t, p.len() + i, valid) == parse_items(t, i, valid),
    decreases t.len() - i,
{
    let all = p + t;
    let k = p.len() + i;
    if i < t.len() {
        lemma_parse_item_shift(p, t, i, valid);
        if let Ok((command, width)) = parse_item(t, i, valid) {
            let next = i + width;
            assert(is_punct(all, k + width, ',') == is_punct(t, next, ','));
            if next < t.len() && is_punct(t, next, ',') && next + 1 < t.len() {
                lemma_parse_items_shift(p, t, next + 1, valid);
                assert(p.len() + (next + 1) == k + width + 1);
            }
        }
    }
}

/// A command that parses in `a` parses the same when `a` is followed by a
/// comma and more tokens.
proof fn lemma_parse_item_extend(
    a: Seq<TokenView>,
    s: Seq<TokenView>,
    pos: int,
    valid: Seq<Seq<char>>,
)
    requires
        0 <= pos < a.len(),
        s.len() > 0,
        s[0] matches TokenView::Punct(c, _) && c == ',',
        parse_item(a, pos, valid) is Ok,
    ensures
        parse_item(a + s, pos, valid) == parse_item(a, pos, valid),
{
    let all = a + s;
    assert(all[pos] == a[pos]);
    assert(is_ident_at(a, pos));
    assert(!is_path_sep(all, pos));
    assert(!is_path_sep(a, pos + 1));
    assert(!is_path_sep(all, pos + 1)) by {
        if pos + 2 < a.len() {
            assert(all[pos + 1] == a[pos + 1] && all[pos + 2] == a[pos + 2]);
        } else if pos + 1 < a.len() {
            assert(all[pos + 2] == s[0]);
        } else {
            assert(all[pos + 1] == s[0]);
        }
    }
    if is_punct(a, pos + 1, '=') {
        assert(all[pos + 1] == a[pos + 1]);
    }
    if string_literal_at(a, pos + 2) is Some {
        assert(all[pos + 2] == a[pos + 2]);
    }
    if pos + 1 < a.len() {
        assert(all[pos + 1] == a[pos + 1]);
    } else {
        assert(all[pos + 1] == s[0]);
    }
}

proof fn lemma_parse_items_extend(
    a: Seq<TokenView>,
    comma: TokenView,
    b: Seq<TokenView>,
    pos: int,
    valid: Seq<Seq<char>>,
)
    requires
        0 <= pos < a.len(),
        comma matches TokenView::Punct(c, _) && c == ',',
        !is_punct(a, a.len() - 1, ','),
        parse_items(a, pos, valid) is Ok,
    ensures
        parse_items(a + seq![comma] + b, pos, valid) == match command_list(b, valid) {
            Ok(y) => Ok(parse_items(a, pos, valid)->Ok_0 + y),
            Err(e) => Err(e),
        },
    decreases a.len() - pos,
{
    let s = seq![comma] + b;
    let all = a + s;
    assert(a + seq![comma] + b =~= all);
    lemma_parse_item_extend(a, s, pos, valid);
    let (command, width) = parse_item(a, pos, valid)->Ok_0;
    let next = pos + width;
    assert(next <= a.len()) by {
        if width == 3 {
            assert(string_literal_at(a, pos + 2) is Some);
        }
    }
    if next == a.len() {
        assert(all[next] == comma);
        if b.len() == 0 {
            assert(all.len() == a.len() + 1);
            assert(seq![command] + Seq::<CommandView>::empty() =~= seq![command]);
        } else {
            lemma_parse_items_shift(a + seq![comma], b, 0, valid);
            assert(a + seq![comma] + b =~= all);
        }
    } else {
        assert(all[next] == a[next]);
        assert(is_punct(a, next, ','));
        assert(next + 1 < a.len());
        lemma_parse_items_extend(a, comma, b, next + 1, valid);
        if let Ok(y) = command_list(b, valid) {
            let rest = parse_items(a, next + 1, valid)->Ok_0;
            assert(seq![command] + (rest + y) =~= seq![command] + rest + y);
        }
    }
}

/// An argument list `a, b` holds the commands of `a` followed by those of
/// `b`; with nothing after the comma, the trailing comma adds none.
pub proof fn comma_joins_command_lists(
    a: Seq<TokenView>,
    comma_joint: bool,
    b: Seq<TokenView>,
    valid: Seq<Seq<char>>,
)
    requires
        a.len() > 0,
        !is_punct(a, a.len() - 1, ','),
        command_list(a, valid) is Ok,
    ensures
        command_list(a + seq![TokenView::Punct(',', comma_joint)] + b, valid) == match command_list(
            b,
            valid,
        ) {
            Ok(y) => Ok(command_list(a, valid)->Ok_0 + y),
            Err(e) => Err(e),
        },
{
    lemma_parse_items_extend(a, TokenView::Punct(',', comma_joint), b, 0, valid);
}

} // verus!
