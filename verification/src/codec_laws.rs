//! What holds of the registry codec for every text and every list of
//! storages.

use crate::codec::{
    block_end, block_lines, block_storage, compact_value, field_key, field_line, field_text,
    first_bad_token, header_name, is_bad_token, is_blank, is_field, is_header, is_known_field,
    last_field,
    opens_section, parse_from, parse_spec, render_spec, token_fault, ConfigError, StorageModel,
};
use crate::text::{
    compact, is_trimmed, lemma_compact_fixpoint, lemma_compact_has_no_space,
    lemma_trim_end_skips, lemma_trim_start_skips, lemma_trimmed_is_trimmed, not_space, trim_end,
    trim_start, trimmed,
};
use crate::token::token_of_text;
use vstd::prelude::*;

verus! {

/// The three keys that are read, letter by letter.
pub proof fn lemma_known_keys()
    ensures
        "type"@ == seq!['t', 'y', 'p', 'e'],
        "scope"@ == seq!['s', 'c', 'o', 'p', 'e'],
        "token"@ == seq!['t', 'o', 'k', 'e', 'n'],
{
    reveal_strlit("type");
    reveal_strlit("scope");
    reveal_strlit("token");
    assert("type"@ =~= seq!['t', 'y', 'p', 'e']);
    assert("scope"@ =~= seq!['s', 'c', 'o', 'p', 'e']);
    assert("token"@ =~= seq!['t', 'o', 'k', 'e', 'n']);
}

/// True for a text that can stand as the key of a field: it is not empty,
/// holds neither `=` nor a space and does not start with `[`.
pub open spec fn is_plain_key(key: Seq<char>) -> bool {
    &&& key.len() > 0
    &&& key[0] != '['
    &&& forall|i: int| 0 <= i < key.len() ==> key[i] != '=' && key[i] != ' '
}

/// The line written for a field is read as a field with that key, and what
/// follows its `=` is a space and the value.
pub proof fn lemma_field_line(key: Seq<char>, value: Seq<char>)
    requires
        is_plain_key(key),
    ensures
        !is_blank(field_line(key, value)),
        !opens_section(field_line(key, value)),
        field_key(field_line(key, value)) == Some(key),
        field_text(field_line(key, value)) == seq![' '] + value,
        forall|other: Seq<char>| is_field(field_line(key, value), other) <==> other == key,
{
    let line = field_line(key, value);
    let at = key.len() as int + 1;
    assert(line[at] == '=');
    assert(line.contains('='));
    assert forall|j: int| 0 <= j < at implies line[j] != '=' by {
        if j < key.len() {
            assert(line[j] == key[j]);
        }
    }
    line.index_of_first_ensures('=');
    let found = line.index_of_first('=')->Some_0;
    assert(found == at);
    assert(line.subrange(0, at) =~= key + seq![' ']);
    assert(line.subrange(at + 1, line.len() as int) =~= seq![' '] + value);
    lemma_trim_end_skips(key, seq![' ']);
    assert((key + seq![' '])[0] == key[0]);
    assert(trim_start(key + seq![' ']) == key + seq![' ']);
    assert(trim_end(key) == key);
}

/// A space in front of a text does not change what is left of it without its
/// spaces.
pub proof fn lemma_compact_after_space(value: Seq<char>)
    ensures
        compact(seq![' '] + value) == compact(value),
{
    let p = |c: char| not_space(c);
    let pad = seq![' '];
    Seq::filter_distributes_over_add(pad, value, p);
    reveal(Seq::filter);
    Seq::<char>::empty().lemma_filter_push(' ', p);
    assert(Seq::<char>::empty().push(' ') =~= pad);
    assert(Seq::<char>::empty().filter(p) =~= Seq::<char>::empty());
    assert(pad.filter(p) + value.filter(p) =~= value.filter(p));
}

/// A space in front of a trimmed text is all that trimming removes.
pub proof fn lemma_trimmed_after_space(value: Seq<char>)
    requires
        is_trimmed(value),
    ensures
        trimmed(seq![' '] + value) == value,
{
    lemma_trim_start_skips(seq![' '], value);
}

/// The text of a list of storages has five lines for each storage.
pub proof fn lemma_render_len(storages: Seq<StorageModel>)
    ensures
        render_spec(storages).len() == 5 * storages.len(),
    decreases storages.len(),
{
    if storages.len() > 0 {
        lemma_render_len(storages.drop_last());
    }
}

/// Line `j` of block `k` of the text of a list of storages is line `j` of
/// the block of storage `k`.
pub proof fn lemma_render_line(storages: Seq<StorageModel>, k: int, j: int)
    requires
        0 <= k < storages.len(),
        0 <= j < 5,
    ensures
        render_spec(storages).len() == 5 * storages.len(),
        render_spec(storages)[5 * k + j] == block_lines(storages[k])[j],
    decreases storages.len(),
{
    lemma_render_len(storages);
    lemma_render_len(storages.drop_last());
    if k < storages.len() - 1 {
        lemma_render_line(storages.drop_last(), k, j);
    }
}

/// In the text of well-formed storages, block `k` is read as storage `k`.
pub proof fn lemma_rendered_block(storages: Seq<StorageModel>, k: int)
    requires
        0 <= k < storages.len(),
        storages[k].wf(),
    ensures
        ({
            let lines = render_spec(storages);
            &&& lines.len() == 5 * storages.len()
            &&& is_header(lines[5 * k])
            &&& !is_blank(lines[5 * k + 1]) && !opens_section(lines[5 * k + 1])
            &&& !is_blank(lines[5 * k + 2]) && !opens_section(lines[5 * k + 2])
            &&& !is_blank(lines[5 * k + 3]) && !opens_section(lines[5 * k + 3])
            &&& is_blank(lines[5 * k + 4])
            &&& block_end(lines, 5 * k + 1) == 5 * k + 4
            &&& block_storage(lines, 5 * k, 5 * k + 4) == Ok::<StorageModel, ConfigError>(
                storages[k],
            )
        }),
{
    let lines = render_spec(storages);
    let s = storages[k];
    let h = 5 * k;
    lemma_render_line(storages, k, 0);
    lemma_render_line(storages, k, 1);
    lemma_render_line(storages, k, 2);
    lemma_render_line(storages, k, 3);
    lemma_render_line(storages, k, 4);
    lemma_known_keys();
    lemma_field_line("type"@, s.drive_type);
    lemma_field_line("scope"@, s.scope);
    lemma_field_line("token"@, s.token.raw);
    let header = seq!['['] + s.name + seq![']'];
    assert(lines[h] == header);
    assert(lines[h + 1] == field_line("type"@, s.drive_type));
    assert(lines[h + 2] == field_line("scope"@, s.scope));
    assert(lines[h + 3] == field_line("token"@, s.token.raw));
    assert(lines[h + 4] == Seq::<char>::empty());
    assert(header_name(header) =~= s.name);
    // where the block ends
    assert(block_end(lines, h + 4) == h + 4);
    assert(block_end(lines, h + 3) == h + 4);
    assert(block_end(lines, h + 2) == h + 4);
    assert(block_end(lines, h + 1) == h + 4);
    // where its fields are
    assert(last_field(lines, h + 1, h + 4, "token"@) == Some(h + 3));
    assert(last_field(lines, h + 1, h + 3, "scope"@) == Some(h + 2));
    assert(last_field(lines, h + 1, h + 4, "scope"@) == Some(h + 2));
    assert(last_field(lines, h + 1, h + 2, "type"@) == Some(h + 1));
    assert(last_field(lines, h + 1, h + 3, "type"@) == Some(h + 1));
    assert(last_field(lines, h + 1, h + 4, "type"@) == Some(h + 1));
    // what they hold
    lemma_compact_after_space(s.drive_type);
    lemma_compact_fixpoint(s.drive_type);
    lemma_compact_after_space(s.scope);
    lemma_compact_fixpoint(s.scope);
    lemma_trimmed_after_space(s.token.raw);
    assert(compact_value(lines, h + 1, h + 4, "type"@) == s.drive_type);
    assert(compact_value(lines, h + 1, h + 4, "scope"@) == s.scope);
    assert(trimmed(field_text(lines[h + 3])) == s.token.raw);
    // no token field is at fault
    assert(!is_bad_token(lines[h + 1]));
    assert(!is_bad_token(lines[h + 2]));
    assert(!is_bad_token(lines[h + 3]));
    assert(first_bad_token(lines, h + 4, h + 4) is None);
    assert(first_bad_token(lines, h + 3, h + 4) is None);
    assert(first_bad_token(lines, h + 2, h + 4) is None);
    assert(first_bad_token(lines, h + 1, h + 4) is None);
}

/// In the text of well-formed storages, what is read from block `k` on is
/// the storages from `k` on.
pub proof fn lemma_rendered_tail(storages: Seq<StorageModel>, k: int)
    requires
        0 <= k <= storages.len(),
        forall|i: int| 0 <= i < storages.len() ==> (#[trigger] storages[i]).wf(),
    ensures
        parse_from(render_spec(storages), 5 * k, false) == Ok::<Seq<StorageModel>, ConfigError>(
            storages.subrange(k, storages.len() as int),
        ),
    decreases storages.len() - k,
{
    let lines = render_spec(storages);
    lemma_render_len(storages);
    if k == storages.len() {
        assert(storages.subrange(k, storages.len() as int) =~= Seq::<StorageModel>::empty());
    } else {
        let h = 5 * k;
        lemma_rendered_block(storages, k);
        lemma_rendered_tail(storages, k + 1);
        let rest = storages.subrange(k + 1, storages.len() as int);
        assert(parse_from(lines, h + 5, false) == Ok::<Seq<StorageModel>, ConfigError>(rest));
        assert(parse_from(lines, h + 4, true) == parse_from(lines, h + 5, false));
        assert(parse_from(lines, h + 3, true) == parse_from(lines, h + 4, true));
        assert(parse_from(lines, h + 2, true) == parse_from(lines, h + 3, true));
        assert(parse_from(lines, h + 1, true) == parse_from(lines, h + 2, true));
        assert(seq![storages[k]] + rest =~= storages.subrange(k, storages.len() as int));
    }
}

/// Writing well-formed storages and reading the text again gives the same
/// storages.
pub proof fn lemma_render_then_parse(storages: Seq<StorageModel>)
    requires
        forall|i: int| 0 <= i < storages.len() ==> (#[trigger] storages[i]).wf(),
    ensures
        parse_spec(render_spec(storages)) == Ok::<Seq<StorageModel>, ConfigError>(storages),
{
    lemma_rendered_tail(storages, 0);
    assert(storages.subrange(0, storages.len() as int) =~= storages);
}

/// The storage that a block denotes is well formed.
pub proof fn lemma_block_storage_wf(lines: Seq<Seq<char>>, header: int, end: int)
    requires
        0 <= header < lines.len(),
        is_header(lines[header]),
        block_storage(lines, header, end) is Ok,
    ensures
        block_storage(lines, header, end)->Ok_0.wf(),
{
    let k = last_field(lines, header + 1, end, "token"@)->Some_0;
    lemma_trimmed_is_trimmed(field_text(lines[k]));
    match last_field(lines, header + 1, end, "type"@) {
        Some(t) => lemma_compact_has_no_space(field_text(lines[t])),
        None => {},
    }
    match last_field(lines, header + 1, end, "scope"@) {
        Some(t) => lemma_compact_has_no_space(field_text(lines[t])),
        None => {},
    }
}

/// Every storage that is read from a text is well formed.
pub proof fn lemma_parsed_wf(lines: Seq<Seq<char>>, i: int, in_block: bool)
    requires
        0 <= i,
        parse_from(lines, i, in_block) is Ok,
    ensures
        forall|j: int|
            0 <= j < parse_from(lines, i, in_block)->Ok_0.len() ==> (#[trigger] parse_from(
                lines,
                i,
                in_block,
            )->Ok_0[j]).wf(),
    decreases lines.len() - i,
{
    if i >= lines.len() {
    } else if is_blank(lines[i]) {
        lemma_parsed_wf(lines, i + 1, false);
    } else if opens_section(lines[i]) {
        lemma_block_storage_wf(lines, i, block_end(lines, i + 1));
        lemma_parsed_wf(lines, i + 1, true);
    } else {
        lemma_parsed_wf(lines, i + 1, in_block);
    }
}

/// The round trip: the storages read from a text, written and read again,
/// are the same storages. The text itself may differ in its spacing, in the
/// order of its fields and in the lines that were passed over.
pub proof fn lemma_round_trip(lines: Seq<Seq<char>>)
    requires
        parse_spec(lines) is Ok,
    ensures
        parse_spec(render_spec(parse_spec(lines)->Ok_0)) == parse_spec(lines),
{
    lemma_parsed_wf(lines, 0, false);
    lemma_render_then_parse(parse_spec(lines)->Ok_0);
}

/// A fault in one block fails the whole text, whatever the other blocks
/// hold.
pub proof fn lemma_faulty_block_fails(lines: Seq<Seq<char>>, header: int, i: int, in_block: bool)
    requires
        0 <= i <= header < lines.len(),
        is_header(lines[header]),
        block_storage(lines, header, block_end(lines, header + 1)) is Err,
    ensures
        parse_from(lines, i, in_block) is Err,
    decreases header - i,
{
    if i < header {
        lemma_faulty_block_fails(lines, header, i + 1, true);
        lemma_faulty_block_fails(lines, header, i + 1, false);
    }
}

/// Where a `token` field among `from..to` is at fault, the first such field
/// is found, at or before that one.
pub proof fn lemma_first_bad_token(lines: Seq<Seq<char>>, from: int, to: int, k: int)
    requires
        0 <= from <= k < to <= lines.len(),
        is_bad_token(lines[k]),
    ensures
        first_bad_token(lines, from, to) is Some,
        from <= first_bad_token(lines, from, to)->Some_0 <= k,
        is_bad_token(lines[first_bad_token(lines, from, to)->Some_0]),
    decreases k - from,
{
    if !is_bad_token(lines[from]) {
        lemma_first_bad_token(lines, from + 1, to, k);
    }
}

/// The end of a block lies within the text.
pub proof fn lemma_block_end_bounds(lines: Seq<Seq<char>>, i: int)
    requires
        0 <= i <= lines.len(),
    ensures
        i <= block_end(lines, i) <= lines.len(),
    decreases lines.len() - i,
{
    if i < lines.len() && !is_blank(lines[i]) && !opens_section(lines[i]) {
        lemma_block_end_bounds(lines, i + 1);
    }
}

/// A block with a `token` field that is no JSON document, or whose expiry is
/// no RFC 3339 timestamp, fails the whole text, whichever of the block's
/// token fields it is and whatever the others hold: no storage is read. The
/// fault of the block is that of its first such field.
pub proof fn lemma_bad_token_fails(lines: Seq<Seq<char>>, header: int, k: int)
    requires
        0 <= header < lines.len(),
        is_header(lines[header]),
        header < k < block_end(lines, header + 1),
        is_bad_token(lines[k]),
    ensures
        parse_spec(lines) is Err,
        ({
            let end = block_end(lines, header + 1);
            let first = first_bad_token(lines, header + 1, end);
            &&& first is Some
            &&& header < first->Some_0 <= k
            &&& block_storage(lines, header, end) == Err::<StorageModel, ConfigError>(
                token_fault(lines[first->Some_0], first->Some_0),
            )
        }),
{
    lemma_block_end_bounds(lines, header + 1);
    lemma_first_bad_token(lines, header + 1, block_end(lines, header + 1), k);
    lemma_faulty_block_fails(lines, header, 0, false);
}

/// A block without any `token` field fails the whole text.
pub proof fn lemma_missing_token_fails(lines: Seq<Seq<char>>, header: int)
    requires
        0 <= header < lines.len(),
        is_header(lines[header]),
        last_field(lines, header + 1, block_end(lines, header + 1), "token"@) is None,
    ensures
        parse_spec(lines) is Err,
{
    lemma_faulty_block_fails(lines, header, 0, false);
}

/// True for a line that is passed over: it is not blank, opens no block and
/// is no field with a key that is read.
pub open spec fn is_passed_over(line: Seq<char>) -> bool {
    !is_blank(line) && !opens_section(line) && !is_known_field(line)
}

/// Two lines read alike when they are the same line, when both are passed
/// over, or when both are fields with the same key and the same value,
/// whatever the spacing around the key and the value.
pub open spec fn reads_alike(a: Seq<char>, b: Seq<char>) -> bool {
    ||| a == b
    ||| is_passed_over(a) && is_passed_over(b)
    ||| (!is_blank(a) && !opens_section(a) && !is_blank(b) && !opens_section(b) && field_key(a)
        is Some && field_key(a) == field_key(b) && trimmed(field_text(a)) == trimmed(
        field_text(b),
    ))
}

/// True for the three keys that are read.
pub open spec fn is_known_key(key: Seq<char>) -> bool {
    key == "type"@ || key == "scope"@ || key == "token"@
}

/// Two texts read alike when they have the same number of lines and their
/// lines read alike, one by one.
pub open spec fn texts_alike(x: Seq<Seq<char>>, y: Seq<Seq<char>>) -> bool {
    x.len() == y.len() && forall|i: int| 0 <= i < x.len() ==> reads_alike(#[trigger] x[i], y[i])
}

/// The spaces at the ends of a text are among those that `compact` removes.
pub proof fn lemma_compact_of_trimmed(s: Seq<char>)
    ensures
        compact(trimmed(s)) == compact(s),
{
    lemma_compact_of_trim_start(s);
    lemma_compact_of_trim_end(trim_start(s));
}

/// The leading spaces of a text are among those that `compact` removes.
pub proof fn lemma_compact_of_trim_start(s: Seq<char>)
    ensures
        compact(trim_start(s)) == compact(s),
    decreases s.len(),
{
    if s.len() > 0 && s[0] == ' ' {
        lemma_compact_of_trim_start(s.drop_first());
        lemma_compact_after_space(s.drop_first());
        assert(seq![' '] + s.drop_first() =~= s);
    }
}

/// The trailing spaces of a text are among those that `compact` removes.
pub proof fn lemma_compact_of_trim_end(s: Seq<char>)
    ensures
        compact(trim_end(s)) == compact(s),
    decreases s.len(),
{
    if s.len() > 0 && s.last() == ' ' {
        lemma_compact_of_trim_end(s.drop_last());
        let p = |c: char| not_space(c);
        s.drop_last().lemma_filter_push(' ', p);
        assert(s.drop_last().push(' ') =~= s);
    }
}

/// Lines that read alike are of the same kind, and where they are fields
/// that are read they hold the same values.
pub proof fn lemma_alike_lines(a: Seq<char>, b: Seq<char>)
    requires
        reads_alike(a, b),
    ensures
        is_blank(a) == is_blank(b),
        opens_section(a) == opens_section(b),
        opens_section(a) ==> a == b,
        forall|key: Seq<char>| is_known_key(key) ==> is_field(a, key) == is_field(b, key),
        is_known_field(a) == is_known_field(b),
        is_known_field(a) ==> compact(field_text(a)) == compact(field_text(b)),
        is_known_field(a) ==> trimmed(field_text(a)) == trimmed(field_text(b)),
        is_bad_token(a) == is_bad_token(b),
        is_bad_token(a) ==> forall|k: int| token_fault(a, k) == token_fault(b, k),
{
    lemma_compact_of_trimmed(field_text(a));
    lemma_compact_of_trimmed(field_text(b));
}

/// In texts that read alike, blocks end on the same line.
pub proof fn lemma_alike_block_end(x: Seq<Seq<char>>, y: Seq<Seq<char>>, i: int)
    requires
        texts_alike(x, y),
    ensures
        block_end(x, i) == block_end(y, i),
    decreases x.len() - i,
{
    if 0 <= i < x.len() {
        assert(reads_alike(x[i], y[i]));
        lemma_alike_lines(x[i], y[i]);
        if !is_blank(x[i]) && !opens_section(x[i]) {
            lemma_alike_block_end(x, y, i + 1);
        }
    }
}

/// In texts that read alike, a key's last field is on the same line.
pub proof fn lemma_alike_last_field(
    x: Seq<Seq<char>>,
    y: Seq<Seq<char>>,
    from: int,
    to: int,
    key: Seq<char>,
)
    requires
        texts_alike(x, y),
        is_known_key(key),
    ensures
        last_field(x, from, to, key) == last_field(y, from, to, key),
    decreases to - from,
{
    if !(to <= from || to > x.len() || from < 0) {
        assert(reads_alike(x[to - 1], y[to - 1]));
        lemma_alike_lines(x[to - 1], y[to - 1]);
        if !is_field(x[to - 1], key) {
            lemma_alike_last_field(x, y, from, to - 1, key);
        }
    }
}

/// In texts that read alike, the first token at fault is on the same line.
pub proof fn lemma_alike_first_bad_token(x: Seq<Seq<char>>, y: Seq<Seq<char>>, from: int, to: int)
    requires
        texts_alike(x, y),
    ensures
        first_bad_token(x, from, to) == first_bad_token(y, from, to),
    decreases to - from,
{
    if !(from < 0 || from >= to || to > x.len()) {
        assert(reads_alike(x[from], y[from]));
        lemma_alike_lines(x[from], y[from]);
        if !is_bad_token(x[from]) {
            lemma_alike_first_bad_token(x, y, from + 1, to);
        }
    }
}

/// In texts that read alike, a block denotes the same storage or has the
/// same fault.
pub proof fn lemma_alike_block(x: Seq<Seq<char>>, y: Seq<Seq<char>>, header: int, end: int)
    requires
        texts_alike(x, y),
        0 <= header < x.len(),
        opens_section(x[header]),
    ensures
        block_storage(x, header, end) == block_storage(y, header, end),
{
    assert(reads_alike(x[header], y[header]));
    lemma_alike_lines(x[header], y[header]);
    lemma_alike_first_bad_token(x, y, header + 1, end);
    lemma_alike_last_field(x, y, header + 1, end, "token"@);
    lemma_alike_last_field(x, y, header + 1, end, "type"@);
    lemma_alike_last_field(x, y, header + 1, end, "scope"@);
    match first_bad_token(x, header + 1, end) {
        Some(k) => {
            lemma_first_bad_token_bounds(x, header + 1, end);
            assert(reads_alike(x[k], y[k]));
            lemma_alike_lines(x[k], y[k]);
        },
        None => {},
    }
    match last_field(x, header + 1, end, "token"@) {
        Some(k) => {
            lemma_last_field_bounds(x, header + 1, end, "token"@);
            assert(reads_alike(x[k], y[k]));
            lemma_alike_lines(x[k], y[k]);
        },
        None => {},
    }
    match last_field(x, header + 1, end, "type"@) {
        Some(k) => {
            lemma_last_field_bounds(x, header + 1, end, "type"@);
            assert(reads_alike(x[k], y[k]));
            lemma_alike_lines(x[k], y[k]);
        },
        None => {},
    }
    match last_field(x, header + 1, end, "scope"@) {
        Some(k) => {
            lemma_last_field_bounds(x, header + 1, end, "scope"@);
            assert(reads_alike(x[k], y[k]));
            lemma_alike_lines(x[k], y[k]);
        },
        None => {},
    }
}

/// The last field of a key lies among the lines that were searched.
pub proof fn lemma_last_field_bounds(lines: Seq<Seq<char>>, from: int, to: int, key: Seq<char>)
    ensures
        match last_field(lines, from, to, key) {
            Some(k) => 0 <= from <= k < to <= lines.len() && is_field(lines[k], key),
            None => true,
        },
    decreases to - from,
{
    if !(to <= from || to > lines.len() || from < 0) {
        if !is_field(lines[to - 1], key) {
            lemma_last_field_bounds(lines, from, to - 1, key);
        }
    }
}

/// The first token at fault lies among the lines that were searched.
pub proof fn lemma_first_bad_token_bounds(lines: Seq<Seq<char>>, from: int, to: int)
    ensures
        match first_bad_token(lines, from, to) {
            Some(k) => 0 <= from <= k < to <= lines.len() && is_bad_token(lines[k]),
            None => true,
        },
    decreases to - from,
{
    if !(from < 0 || from >= to || to > lines.len()) {
        if !is_bad_token(lines[from]) {
            lemma_first_bad_token_bounds(lines, from + 1, to);
        }
    }
}

/// In texts that read alike, the lines from `i` on denote the same storages
/// or have the same fault.
pub proof fn lemma_alike_from(x: Seq<Seq<char>>, y: Seq<Seq<char>>, i: int, in_block: bool)
    requires
        texts_alike(x, y),
    ensures
        parse_from(x, i, in_block) == parse_from(y, i, in_block),
    decreases x.len() - i,
{
    if 0 <= i < x.len() {
        assert(reads_alike(x[i], y[i]));
        lemma_alike_lines(x[i], y[i]);
        if is_blank(x[i]) {
            lemma_alike_from(x, y, i + 1, false);
        } else if opens_section(x[i]) {
            lemma_alike_block_end(x, y, i + 1);
            lemma_alike_block(x, y, i, block_end(x, i + 1));
            lemma_alike_from(x, y, i + 1, true);
        } else {
            lemma_alike_from(x, y, i + 1, in_block);
        }
    }
}

/// The spacing around `=` does not matter, nor does what the lines that are
/// passed over hold: two texts whose lines read alike, one by one, denote the
/// same storages, or have the same fault.
pub proof fn lemma_spacing_ignored(x: Seq<Seq<char>>, y: Seq<Seq<char>>)
    requires
        texts_alike(x, y),
    ensures
        parse_spec(x) == parse_spec(y),
{
    lemma_alike_from(x, y, 0, false);
}

/// Unknown keys are ignored: a line that is passed over can be replaced by
/// any other such line, and the text denotes the same storages, or has the
/// same fault.
pub proof fn lemma_unknown_keys_ignored(lines: Seq<Seq<char>>, k: int, other: Seq<char>)
    requires
        0 <= k < lines.len(),
        is_passed_over(lines[k]),
        is_passed_over(other),
    ensures
        parse_spec(lines.update(k, other)) == parse_spec(lines),
{
    let changed = lines.update(k, other);
    assert forall|i: int| 0 <= i < lines.len() implies reads_alike(
        #[trigger] lines[i],
        changed[i],
    ) by {}
    lemma_spacing_ignored(lines, changed);
}

/// A field whose key is none of those that are read is passed over, whatever
/// it holds.
pub proof fn lemma_unknown_field_passed_over(key: Seq<char>, value: Seq<char>)
    requires
        is_plain_key(key),
        !is_known_key(key),
    ensures
        is_passed_over(field_line(key, value)),
{
    lemma_field_line(key, value);
}

/// The names of the headers from line `i` on, in their order.
pub open spec fn section_names(lines: Seq<Seq<char>>, i: int) -> Seq<Seq<char>>
    decreases lines.len() - i,
{
    if i < 0 || i >= lines.len() {
        Seq::empty()
    } else if opens_section(lines[i]) {
        seq![header_name(lines[i])] + section_names(lines, i + 1)
    } else {
        section_names(lines, i + 1)
    }
}

/// One storage for each header, in the order of the text: where a text is
/// read, its storages are as many as its headers, and each bears the name of
/// its header.
pub proof fn lemma_one_storage_per_header(lines: Seq<Seq<char>>, i: int, in_block: bool)
    requires
        0 <= i,
        parse_from(lines, i, in_block) is Ok,
    ensures
        parse_from(lines, i, in_block)->Ok_0.len() == section_names(lines, i).len(),
        forall|j: int|
            0 <= j < section_names(lines, i).len() ==> (#[trigger] parse_from(
                lines,
                i,
                in_block,
            )->Ok_0[j]).name == section_names(lines, i)[j],
    decreases lines.len() - i,
{
    if i >= lines.len() {
    } else if is_blank(lines[i]) {
        lemma_one_storage_per_header(lines, i + 1, false);
    } else if opens_section(lines[i]) {
        lemma_one_storage_per_header(lines, i + 1, true);
    } else {
        lemma_one_storage_per_header(lines, i + 1, in_block);
    }
}

/// A field written without spaces around its `=` reads like the field that
/// `render` writes.
pub proof fn lemma_tight_field_reads_alike(key: Seq<char>, value: Seq<char>)
    requires
        is_plain_key(key),
    ensures
        reads_alike(key + seq!['='] + value, field_line(key, value)),
{
    let tight = key + seq!['='] + value;
    let at = key.len() as int;
    lemma_field_line(key, value);
    assert(tight[at] == '=');
    assert(tight.contains('='));
    assert forall|j: int| 0 <= j < at implies tight[j] != '=' by {
        assert(tight[j] == key[j]);
    }
    tight.index_of_first_ensures('=');
    assert(tight.index_of_first('=')->Some_0 == at);
    assert(tight.subrange(0, at) =~= key);
    assert(tight.subrange(at + 1, tight.len() as int) =~= value);
    assert(tight[0] == key[0]);
    assert(trim_start(key) == key);
    assert(trim_end(key) == key);
    lemma_trim_start_skips(seq![' '], value);
}

} // verus!
