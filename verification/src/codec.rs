//! The registry codec: the text format of the remote-storage registry, read
//! into `Storage` records and written back.
//!
//! The registry is a sequence of lines. A line that starts with `[` opens a
//! block and must be a `[name]` header. The lines that follow it, up to the
//! next blank line or header, are the block's fields: `key = value`, where the
//! key is what stands before the first `=`. The keys `type`, `scope` and
//! `token` are read, any other line of a block is passed over. Where a key
//! occurs more than once in a block, its last occurrence counts; but every
//! `token` field must denote a token, and the first that does not fails the
//! whole text.

use crate::enums::StorageType;
use crate::text::{
    chars_of, compact, compact_range, find_char, has_no_space, is_trimmed,
    lemma_compact_has_no_space, lemma_trimmed_is_trimmed, string_of_range, trimmed, trimmed_range,
};
use crate::token::{token_of_text, TokenError, TokenModel, TokenStruct};
use vstd::prelude::*;
use vstd::string::StringExecFns;

verus! {

/// A configured remote.
#[derive(Debug, Clone, PartialEq, Eq)]
pub struct Storage {
    /// The name of the storage: the key of the registry.
    pub name: String,
    /// The provider, as the `type` field names it.
    pub drive_type: String,
    /// The access scope that the provider reported.
    pub scope: String,
    /// The OAuth credentials.
    pub token: TokenStruct,
}

/// A storage as plain values.
pub struct StorageModel {
    pub name: Seq<char>,
    pub drive_type: Seq<char>,
    pub scope: Seq<char>,
    pub token: TokenModel,
}

impl View for Storage {
    type V = StorageModel;

    open spec fn view(&self) -> StorageModel {
        StorageModel {
            name: self.name@,
            drive_type: self.drive_type@,
            scope: self.scope@,
            token: self.token@,
        }
    }
}

impl DeepView for Storage {
    type V = StorageModel;

    open spec fn deep_view(&self) -> StorageModel {
        self@
    }
}

impl StorageModel {
    /// What holds of every storage that was read from a registry: the name is
    /// not empty, type and scope hold no space, and the token is what its own
    /// text denotes, a text without spaces around it.
    pub open spec fn wf(self) -> bool {
        &&& self.name.len() > 0
        &&& has_no_space(self.drive_type)
        &&& has_no_space(self.scope)
        &&& is_trimmed(self.token.raw)
        &&& token_of_text(self.token.raw) == Ok::<TokenModel, TokenError>(self.token)
    }
}

impl Storage {
    /// The provider of the storage, where its type is one that is known.
    pub fn provider_type(&self) -> (r: Option<StorageType>)
        ensures
            r == StorageType::of_key(self@.drive_type),
    {
        StorageType::from_key(self.drive_type.as_str())
    }

    /// A copy of the storage.
    pub fn duplicate(&self) -> (out: Storage)
        ensures
            out@ == self@,
    {
        Storage {
            name: self.name.clone(),
            drive_type: self.drive_type.clone(),
            scope: self.scope.clone(),
            token: self.token.duplicate(),
        }
    }
}

/// Why a registry text was refused. `line` counts the lines from 0.
#[derive(Debug, Clone, Copy, PartialEq, Eq, Structural)]
pub enum ConfigError {
    /// The line opens a block without being a `[name]` header with a name, or
    /// it is a `type`, `scope` or `token` field that belongs to no block.
    MalformedBlock { line: usize },
    /// The block whose header is on this line has no `token` field.
    MissingToken { line: usize },
    /// The `token` field on this line is not a JSON document.
    InvalidToken { line: usize },
    /// The token on this line has no `expiry`, or it is not an RFC 3339
    /// timestamp.
    InvalidExpiry { line: usize },
}

/// True for the empty line, which ends a block.
pub open spec fn is_blank(line: Seq<char>) -> bool {
    line.len() == 0
}

/// True for a line that starts with `[`.
pub open spec fn opens_section(line: Seq<char>) -> bool {
    line.len() > 0 && line[0] == '['
}

/// True for a line of the form `[name]` with a name that is not empty.
pub open spec fn is_header(line: Seq<char>) -> bool {
    line.len() >= 3 && line[0] == '[' && line.last() == ']'
}

/// The name between the brackets of a header.
pub open spec fn header_name(line: Seq<char>) -> Seq<char> {
    line.subrange(1, line.len() - 1)
}

/// The key of a field: what stands before the first `=`, without the spaces
/// around it. `None` for a line without `=`.
pub open spec fn field_key(line: Seq<char>) -> Option<Seq<char>> {
    match line.index_of_first('=') {
        Some(k) => Some(trimmed(line.subrange(0, k))),
        None => None,
    }
}

/// What follows the first `=` of a line.
pub open spec fn field_text(line: Seq<char>) -> Seq<char> {
    match line.index_of_first('=') {
        Some(k) => line.subrange(k + 1, line.len() as int),
        None => Seq::empty(),
    }
}

/// True when the line is a field with the given key.
pub open spec fn is_field(line: Seq<char>, key: Seq<char>) -> bool {
    !is_blank(line) && !opens_section(line) && field_key(line) == Some(key)
}

/// True when the line is a field with one of the keys that are read.
pub open spec fn is_known_field(line: Seq<char>) -> bool {
    is_field(line, "type"@) || is_field(line, "scope"@) || is_field(line, "token"@)
}

/// The end of the block whose fields start at line `i`: the first blank line
/// or section opening at or after `i`, or the number of lines.
pub open spec fn block_end(lines: Seq<Seq<char>>, i: int) -> int
    decreases lines.len() - i,
{
    if i < 0 || i >= lines.len() {
        lines.len() as int
    } else if is_blank(lines[i]) || opens_section(lines[i]) {
        i
    } else {
        block_end(lines, i + 1)
    }
}

/// The last line among `from..to` that is a field with the given key.
pub open spec fn last_field(lines: Seq<Seq<char>>, from: int, to: int, key: Seq<char>) -> Option<
    int,
>
    decreases to - from,
{
    if to <= from || to > lines.len() || from < 0 {
        None
    } else if is_field(lines[to - 1], key) {
        Some(to - 1)
    } else {
        last_field(lines, from, to - 1, key)
    }
}

/// The value of a field of a block, with every space removed; empty where the
/// block has no such field.
pub open spec fn compact_value(lines: Seq<Seq<char>>, from: int, to: int, key: Seq<char>) -> Seq<
    char,
> {
    match last_field(lines, from, to, key) {
        Some(k) => compact(field_text(lines[k])),
        None => Seq::empty(),
    }
}

/// True when the line is a `token` field whose text denotes no token.
pub open spec fn is_bad_token(line: Seq<char>) -> bool {
    is_field(line, "token"@) && token_of_text(trimmed(field_text(line))) is Err
}

/// The first line among `from..to` that is a `token` field whose text
/// denotes no token.
pub open spec fn first_bad_token(lines: Seq<Seq<char>>, from: int, to: int) -> Option<int>
    decreases to - from,
{
    if from < 0 || from >= to || to > lines.len() {
        None
    } else if is_bad_token(lines[from]) {
        Some(from)
    } else {
        first_bad_token(lines, from + 1, to)
    }
}

/// The fault of the `token` field on line `k`: its expiry where the text is
/// a JSON document, else the text itself.
pub open spec fn token_fault(line: Seq<char>, k: int) -> ConfigError {
    match token_of_text(trimmed(field_text(line))) {
        Err(TokenError::InvalidExpiry) => ConfigError::InvalidExpiry { line: k as usize },
        _ => ConfigError::InvalidToken { line: k as usize },
    }
}

/// The storage of a block, given its token: the name of the header on line
/// `header`, and the last `type` and `scope` among the lines up to `end`.
pub open spec fn block_fields(
    lines: Seq<Seq<char>>,
    header: int,
    end: int,
    token: TokenModel,
) -> StorageModel {
    StorageModel {
        name: header_name(lines[header]),
        drive_type: compact_value(lines, header + 1, end, "type"@),
        scope: compact_value(lines, header + 1, end, "scope"@),
        token,
    }
}

/// The storage that the block with its header on line `header` and its
/// fields on the lines up to `end` denotes. Every `token` field of the block
/// must denote a token: the first that does not is the block's fault. Of
/// those that do, the last counts.
pub open spec fn block_storage(lines: Seq<Seq<char>>, header: int, end: int) -> Result<
    StorageModel,
    ConfigError,
> {
    match first_bad_token(lines, header + 1, end) {
        Some(k) => Err(token_fault(lines[k], k)),
        None => match last_field(lines, header + 1, end, "token"@) {
            None => Err(ConfigError::MissingToken { line: header as usize }),
            Some(k) => match token_of_text(trimmed(field_text(lines[k]))) {
                Ok(token) => Ok(block_fields(lines, header, end, token)),
                Err(_) => Err(token_fault(lines[k], k)),
            },
        },
    }
}

/// The storages that the lines from `i` on denote. `in_block` tells whether
/// line `i` follows a header without a blank line in between.
pub open spec fn parse_from(lines: Seq<Seq<char>>, i: int, in_block: bool) -> Result<
    Seq<StorageModel>,
    ConfigError,
>
    decreases lines.len() - i,
{
    if i < 0 || i >= lines.len() {
        Ok(Seq::empty())
    } else if is_blank(lines[i]) {
        parse_from(lines, i + 1, false)
    } else if opens_section(lines[i]) {
        if !is_header(lines[i]) {
            Err(ConfigError::MalformedBlock { line: i as usize })
        } else {
            match block_storage(lines, i, block_end(lines, i + 1)) {
                Err(e) => Err(e),
                Ok(storage) => match parse_from(lines, i + 1, true) {
                    Err(e) => Err(e),
                    Ok(rest) => Ok(seq![storage] + rest),
                },
            }
        }
    } else if !in_block && is_known_field(lines[i]) {
        Err(ConfigError::MalformedBlock { line: i as usize })
    } else {
        parse_from(lines, i + 1, in_block)
    }
}

/// The storages that a registry text denotes, in the order of their blocks;
/// or the first fault in it.
pub open spec fn parse_spec(lines: Seq<Seq<char>>) -> Result<Seq<StorageModel>, ConfigError> {
    parse_from(lines, 0, false)
}

/// The result of a text whose first storages are `done` and whose remaining
/// lines give `rest`.
pub open spec fn prepend(done: Seq<StorageModel>, rest: Result<Seq<StorageModel>, ConfigError>) -> Result<
    Seq<StorageModel>,
    ConfigError,
> {
    match rest {
        Ok(more) => Ok(done + more),
        Err(e) => Err(e),
    }
}

fn line_is_field(line: &Vec<char>, key: &str) -> (r: bool)
    ensures
        r == is_field(line@, key@),
{
    if line.len() == 0 || line[0] == '[' {
        return false;
    }
    match find_char(line, '=') {
        None => false,
        Some(k) => {
            let found = trimmed_range(line, 0, k);
            found.as_str().eq(key)
        },
    }
}

fn line_is_known_field(line: &Vec<char>) -> (r: bool)
    ensures
        r == is_known_field(line@),
{
    line_is_field(line, "type") || line_is_field(line, "scope") || line_is_field(line, "token")
}

fn find_block_end(lines: &Vec<Vec<char>>, text: Ghost<Seq<Seq<char>>>, start: usize) -> (end: usize)
    requires
        lines@.len() == text@.len(),
        forall|j: int| 0 <= j < lines@.len() ==> lines@[j]@ == text@[j],
        start <= lines.len(),
    ensures
        end == block_end(text@, start as int),
        start <= end <= lines.len(),
{
    let mut i: usize = start;
    while i < lines.len() && lines[i].len() != 0 && lines[i][0] != '['
        invariant
            start <= i <= lines.len(),
            lines@.len() == text@.len(),
            forall|j: int| 0 <= j < lines@.len() ==> lines@[j]@ == text@[j],
            block_end(text@, start as int) == block_end(text@, i as int),
        decreases lines.len() - i,
    {
        i += 1;
    }
    i
}

fn find_last_field(
    lines: &Vec<Vec<char>>,
    text: Ghost<Seq<Seq<char>>>,
    from: usize,
    to: usize,
    key: &str,
) -> (r: Option<usize>)
    requires
        lines@.len() == text@.len(),
        forall|j: int| 0 <= j < lines@.len() ==> lines@[j]@ == text@[j],
        from <= to <= lines.len(),
    ensures
        match r {
            Some(k) => last_field(text@, from as int, to as int, key@) == Some(k as int) && from
                <= k < to,
            None => last_field(text@, from as int, to as int, key@) is None,
        },
{
    let mut found: Option<usize> = None;
    let mut i: usize = from;
    while i < to
        invariant
            from <= i <= to <= lines.len(),
            lines@.len() == text@.len(),
            forall|j: int| 0 <= j < lines@.len() ==> lines@[j]@ == text@[j],
            match found {
                Some(k) => last_field(text@, from as int, i as int, key@) == Some(k as int)
                    && from <= k < i,
                None => last_field(text@, from as int, i as int, key@) is None,
            },
        decreases to - i,
    {
        if line_is_field(&lines[i], key) {
            found = Some(i);
        }
        i += 1;
    }
    found
}

fn text_after_equals(line: &Vec<char>, squeeze: bool) -> (out: String)
    ensures
        out@ == if squeeze {
            compact(field_text(line@))
        } else {
            trimmed(field_text(line@))
        },
{
    let from = match find_char(line, '=') {
        Some(k) => k + 1,
        None => line.len(),
    };
    assert(field_text(line@) == line@.subrange(from as int, line.len() as int));
    if squeeze {
        compact_range(line, from, line.len())
    } else {
        trimmed_range(line, from, line.len())
    }
}

fn read_compact_value(
    lines: &Vec<Vec<char>>,
    text: Ghost<Seq<Seq<char>>>,
    from: usize,
    to: usize,
    key: &str,
) -> (out: String)
    requires
        lines@.len() == text@.len(),
        forall|j: int| 0 <= j < lines@.len() ==> lines@[j]@ == text@[j],
        from <= to <= lines.len(),
    ensures
        out@ == compact_value(text@, from as int, to as int, key@),
        has_no_space(out@),
{
    match find_last_field(lines, text, from, to, key) {
        Some(k) => {
            proof {
                lemma_compact_has_no_space(field_text(text@[k as int]));
            }
            text_after_equals(&lines[k], true)
        },
        None => String::new(),
    }
}

fn read_fields(
    lines: &Vec<Vec<char>>,
    text: Ghost<Seq<Seq<char>>>,
    header: usize,
    end: usize,
    token: TokenStruct,
) -> (storage: Storage)
    requires
        lines@.len() == text@.len(),
        forall|j: int| 0 <= j < lines@.len() ==> lines@[j]@ == text@[j],
        header < end <= lines.len(),
        is_header(text@[header as int]),
    ensures
        storage@ == block_fields(text@, header as int, end as int, token@),
        storage@.name.len() > 0,
        has_no_space(storage@.drive_type),
        has_no_space(storage@.scope),
{
    let name = string_of_range(&lines[header], 1, lines[header].len() - 1);
    let drive_type = read_compact_value(lines, text, header + 1, end, "type");
    let scope = read_compact_value(lines, text, header + 1, end, "scope");
    Storage { name, drive_type, scope, token }
}

fn chars_of_lines(raw_lines: &Vec<String>) -> (lines: Vec<Vec<char>>)
    ensures
        lines@.len() == raw_lines.len(),
        forall|j: int| 0 <= j < lines@.len() ==> lines@[j]@ == raw_lines.deep_view()[j],
{
    let mut lines: Vec<Vec<char>> = Vec::new();
    let mut n: usize = 0;
    while n < raw_lines.len()
        invariant
            n <= raw_lines.len(),
            lines@.len() == n,
            forall|j: int| 0 <= j < n ==> lines@[j]@ == raw_lines.deep_view()[j],
        decreases raw_lines.len() - n,
    {
        lines.push(chars_of(raw_lines[n].as_str()));
        n += 1;
    }
    lines
}

/// The storage of a block whose token has been read: the name of the header
/// on line `header`, the last `type` and `scope` among the lines up to `end`,
/// and the token as it is given. `None` where line `header` is no header or
/// the lines `header..end` are not lines of the text.
pub fn storage_of_block(lines: &Vec<String>, header: usize, end: usize, token: TokenStruct) -> (r:
    Option<Storage>)
    ensures
        match r {
            Some(storage) => header < end <= lines.len() && is_header(
                lines.deep_view()[header as int],
            ) && storage@ == block_fields(lines.deep_view(), header as int, end as int, token@),
            None => !(header < end <= lines.len() && is_header(lines.deep_view()[header as int])),
        },
{
    if !(header < end && end <= lines.len()) {
        return None;
    }
    let text = chars_of_lines(lines);
    let len = text[header].len();
    if len < 3 || text[header][0] != '[' || text[header][len - 1] != ']' {
        return None;
    }
    Some(read_fields(&text, Ghost(lines.deep_view()), header, end, token))
}

fn read_block(
    lines: &Vec<Vec<char>>,
    text: Ghost<Seq<Seq<char>>>,
    header: usize,
    end: usize,
) -> (r: Result<Storage, ConfigError>)
    requires
        lines@.len() == text@.len(),
        forall|j: int| 0 <= j < lines@.len() ==> lines@[j]@ == text@[j],
        header < end <= lines.len(),
        is_header(text@[header as int]),
    ensures
        match r {
            Ok(storage) => block_storage(text@, header as int, end as int) == Ok::<
                StorageModel,
                ConfigError,
            >(storage@) && storage@.wf(),
            Err(e) => block_storage(text@, header as int, end as int) == Err::<
                StorageModel,
                ConfigError,
            >(e),
        },
{
    let mut token: Option<TokenStruct> = None;
    let ghost mut at: int = 0;
    let mut i: usize = header + 1;
    while i < end
        invariant
            header < i <= end <= lines.len(),
            lines@.len() == text@.len(),
            forall|j: int| 0 <= j < lines@.len() ==> lines@[j]@ == text@[j],
            is_header(text@[header as int]),
            first_bad_token(text@, header as int + 1, end as int) == first_bad_token(
                text@,
                i as int,
                end as int,
            ),
            match token {
                Some(t) => last_field(text@, header as int + 1, i as int, "token"@) == Some(at)
                    && header < at < i && token_of_text(trimmed(field_text(text@[at]))) == Ok::<
                    TokenModel,
                    TokenError,
                >(t@) && is_trimmed(t@.raw),
                None => last_field(text@, header as int + 1, i as int, "token"@) is None,
            },
        decreases end - i,
    {
        if line_is_field(&lines[i], "token") {
            let raw = text_after_equals(&lines[i], false);
            proof {
                lemma_trimmed_is_trimmed(field_text(text@[i as int]));
            }
            match TokenStruct::parse(raw.as_str()) {
                Err(TokenError::InvalidJson) => {
                    return Err(ConfigError::InvalidToken { line: i });
                },
                Err(TokenError::InvalidExpiry) => {
                    return Err(ConfigError::InvalidExpiry { line: i });
                },
                Ok(t) => {
                    token = Some(t);
                    proof {
                        at = i as int;
                    }
                },
            }
        }
        i += 1;
    }
    match token {
        None => Err(ConfigError::MissingToken { line: header }),
        Some(t) => Ok(read_fields(lines, text, header, end, t)),
    }
}

/// Reads the storages of a registry text, given line by line. The whole text
/// is refused where one block is at fault: no storage is handed out then.
pub fn parse(raw_lines: &Vec<String>) -> (r: Result<Vec<Storage>, ConfigError>)
    ensures
        match r {
            Ok(storages) => parse_spec(raw_lines.deep_view()) == Ok::<
                Seq<StorageModel>,
                ConfigError,
            >(storages.deep_view()) && forall|i: int|
                0 <= i < storages.len() ==> (#[trigger] storages.deep_view()[i]).wf(),
            Err(e) => parse_spec(raw_lines.deep_view()) == Err::<Seq<StorageModel>, ConfigError>(e),
        },
{
    let ghost text = raw_lines.deep_view();
    let lines = chars_of_lines(raw_lines);
    let mut out: Vec<Storage> = Vec::new();
    let mut in_block = false;
    let mut i: usize = 0;
    assert(out.deep_view() =~= Seq::<StorageModel>::empty());
    assert(prepend(out.deep_view(), parse_from(text, 0, false)) == parse_spec(text)) by {
        match parse_from(text, 0, false) {
            Ok(more) => {
                assert(out.deep_view() + more =~= more);
            },
            Err(_) => {},
        }
    }
    while i < lines.len()
        invariant
            i <= lines.len(),
            text == raw_lines.deep_view(),
            lines@.len() == text.len(),
            forall|j: int| 0 <= j < lines@.len() ==> lines@[j]@ == text[j],
            parse_spec(text) == prepend(out.deep_view(), parse_from(text, i as int, in_block)),
            forall|j: int| 0 <= j < out.len() ==> (#[trigger] out.deep_view()[j]).wf(),
        decreases lines.len() - i,
    {
        if lines[i].len() == 0 {
            in_block = false;
        } else if lines[i][0] == '[' {
            let len = lines[i].len();
            if len < 3 || lines[i][len - 1] != ']' {
                return Err(ConfigError::MalformedBlock { line: i });
            }
            let end = find_block_end(&lines, Ghost(text), i + 1);
            match read_block(&lines, Ghost(text), i, end) {
                Err(e) => {
                    return Err(e);
                },
                Ok(storage) => {
                    let ghost before = out.deep_view();
                    let ghost model = storage@;
                    out.push(storage);
                    proof {
                        assert(out.deep_view() =~= before.push(model));
                        match parse_from(text, i as int + 1, true) {
                            Ok(more) => {
                                assert(before + (seq![model] + more) =~= before.push(model)
                                    + more);
                            },
                            Err(_) => {},
                        }
                    }
                    in_block = true;
                },
            }
        } else if !in_block && line_is_known_field(&lines[i]) {
            return Err(ConfigError::MalformedBlock { line: i });
        }
        i += 1;
    }
    proof {
        assert(out.deep_view() + Seq::<StorageModel>::empty() =~= out.deep_view());
    }
    Ok(out)
}

/// The line of a field: the key, ` = `, the value.
pub open spec fn field_line(key: Seq<char>, value: Seq<char>) -> Seq<char> {
    key + seq![' ', '=', ' '] + value
}

/// The lines of a storage's block: the header, the three fields and the
/// blank line that ends the block.
pub open spec fn block_lines(storage: StorageModel) -> Seq<Seq<char>> {
    seq![
        seq!['['] + storage.name + seq![']'],
        field_line("type"@, storage.drive_type),
        field_line("scope"@, storage.scope),
        field_line("token"@, storage.token.raw),
        Seq::<char>::empty(),
    ]
}

/// The registry text of a list of storages: their blocks, one after another.
pub open spec fn render_spec(storages: Seq<StorageModel>) -> Seq<Seq<char>>
    decreases storages.len(),
{
    if storages.len() == 0 {
        Seq::empty()
    } else {
        render_spec(storages.drop_last()) + block_lines(storages.last())
    }
}

fn render_field(key: &str, value: &str) -> (line: String)
    ensures
        line@ == field_line(key@, value@),
{
    let mut line = key.to_owned();
    line.append(" = ");
    line.append(value);
    proof {
        reveal_strlit(" = ");
        assert(" = "@ =~= seq![' ', '=', ' ']);
    }
    line
}

/// Writes a list of storages as registry text, line by line.
pub fn render(storages: &Vec<Storage>) -> (lines: Vec<String>)
    ensures
        lines.deep_view() == render_spec(storages.deep_view()),
{
    let mut lines: Vec<String> = Vec::new();
    let mut i: usize = 0;
    assert(storages.deep_view().take(0) =~= Seq::<StorageModel>::empty());
    assert(lines.deep_view() =~= Seq::<Seq<char>>::empty());
    while i < storages.len()
        invariant
            i <= storages.len(),
            lines.deep_view() == render_spec(storages.deep_view().take(i as int)),
        decreases storages.len() - i,
    {
        let ghost before = lines.deep_view();
        let storage = &storages[i];
        let mut header = String::new();
        header.push('[');
        header.append(storage.name.as_str());
        header.push(']');
        assert(header@ =~= seq!['['] + storage@.name + seq![']']);
        lines.push(header);
        lines.push(render_field("type", storage.drive_type.as_str()));
        lines.push(render_field("scope", storage.scope.as_str()));
        lines.push(render_field("token", storage.token.raw().as_str()));
        lines.push(String::new());
        proof {
            let taken = storages.deep_view().take(i as int + 1);
            assert(taken.drop_last() == storages.deep_view().take(i as int));
            assert(taken.last() == storage@);
            assert(lines.deep_view() =~= before + block_lines(storage@));
        }
        i += 1;
    }
    assert(storages.deep_view().take(storages.len() as int) == storages.deep_view());
    lines
}

} // verus!
