//! The schema description language and its resolution.
//!
//! A schema is a sequence of `;`-terminated field declarations:
//!
//! ```text
//! field := (typeKeyword | subStructName) identifier [elementCount] ';'
//! ```
//!
//! The leading word either names a primitive kind (see
//! [`StructureFieldTypes`]) or another catalogued structure type.  The
//! optional element count is a plain integer or a bracketed one (`xs 4` or
//! `xs[4]`); it scales a primitive field's size and is ignored on a
//! sub-structure field.  Whitespace separates tokens and carries no meaning.
//!
//! Resolution walks the declarations in order, keeping a running byte
//! cursor: a primitive field emits one [`FieldEntry`] at the cursor and
//! advances it by the field's total size; a sub-structure field inlines the
//! referenced type's own resolved entries -- looked up in the catalog by
//! exact name, prefixed with `<identifier>.` -- and advances the cursor by
//! that type's declared byte size, tolerating padding.  Anything else is a
//! parse error, never a silently empty result.

use vstd::prelude::*;
use vstd::string::StrSliceExecFns;
use vstd::string::StringExecFns;
use crate::error::SchemaError;
use crate::prims::StructureFieldTypes;
use crate::registry::DescView;
use crate::registry::FrcStructDesc;
use crate::registry::FrcStructDescDB;
use crate::registry::spec_lookup;

verus! {

/// The mathematical content of one schema token.
pub enum SpecToken {
    Word(Seq<char>),
    Number(u32),
    Semicolon,
    OpenBracket,
    CloseBracket,
}

/// One schema token: a word (type keyword, sub-structure name or field
/// identifier), an integer, `;`, `[` or `]`.
#[derive(Debug, Clone, PartialEq)]
pub enum SchemaToken {
    Word(String),
    Number(u32),
    Semicolon,
    OpenBracket,
    CloseBracket,
}

impl View for SchemaToken {
    type V = SpecToken;

    open spec fn view(&self) -> SpecToken {
        match self {
            SchemaToken::Word(w) => SpecToken::Word(w@),
            SchemaToken::Number(v) => SpecToken::Number(*v),
            SchemaToken::Semicolon => SpecToken::Semicolon,
            SchemaToken::OpenBracket => SpecToken::OpenBracket,
            SchemaToken::CloseBracket => SpecToken::CloseBracket,
        }
    }
}

impl DeepView for SchemaToken {
    type V = SpecToken;

    open spec fn deep_view(&self) -> SpecToken {
        self.view()
    }
}

/// Whitespace between schema tokens.
pub open spec fn spec_is_ws(c: char) -> bool {
    c == ' ' || c == '\t' || c == '\n' || c == '\u{c}'
}

/// A decimal digit.
pub open spec fn spec_is_digit(c: char) -> bool {
    '0' <= c && c <= '9'
}

/// A character that may start a word.
pub open spec fn spec_is_word_start(c: char) -> bool {
    ('a' <= c && c <= 'z') || ('A' <= c && c <= 'Z') || c == '_' || c == '-'
}

/// A character that may continue a word.
pub open spec fn spec_is_word_char(c: char) -> bool {
    spec_is_word_start(c) || spec_is_digit(c)
}

/// The index just past the run of word characters starting at `i`.
pub open spec fn spec_scan_word(s: Seq<char>, i: int) -> int
    decreases s.len() - i when 0 <= i <= s.len()
{
    if i == s.len() {
        i
    } else if spec_is_word_char(s[i]) {
        spec_scan_word(s, i + 1)
    } else {
        i
    }
}

pub proof fn lemma_scan_word_bounds(s: Seq<char>, i: int)
    requires
        0 <= i <= s.len(),
    ensures
        i <= spec_scan_word(s, i) <= s.len(),
    decreases s.len() - i,
{
    if i < s.len() && spec_is_word_char(s[i]) {
        lemma_scan_word_bounds(s, i + 1);
    }
}

/// The index just past the run of digits starting at `i`.
pub open spec fn spec_scan_digits(s: Seq<char>, i: int) -> int
    decreases s.len() - i when 0 <= i <= s.len()
{
    if i == s.len() {
        i
    } else if spec_is_digit(s[i]) {
        spec_scan_digits(s, i + 1)
    } else {
        i
    }
}

pub proof fn lemma_scan_digits_bounds(s: Seq<char>, i: int)
    requires
        0 <= i <= s.len(),
    ensures
        i <= spec_scan_digits(s, i) <= s.len(),
        i < s.len() && spec_is_digit(s[i]) ==> i + 1 <= spec_scan_digits(s, i),
        forall|k: int| i <= k < spec_scan_digits(s, i) ==> spec_is_digit(s[k]),
    decreases s.len() - i,
{
    if i < s.len() && spec_is_digit(s[i]) {
        lemma_scan_digits_bounds(s, i + 1);
    }
}

/// The value of the decimal digit run `s[i..j)`.
pub open spec fn spec_digits_val(s: Seq<char>, i: int, j: int) -> int
    decreases j - i when 0 <= i <= j <= s.len()
{
    if i >= j {
        0
    } else {
        spec_digits_val(s, i, j - 1) * 10 + (s[j - 1] as int - '0' as int)
    }
}

pub proof fn lemma_digits_val_nonneg(s: Seq<char>, i: int, j: int)
    requires
        0 <= i <= j <= s.len(),
        forall|k: int| i <= k < j ==> spec_is_digit(s[k]),
    ensures
        spec_digits_val(s, i, j) >= 0,
    decreases j - i,
{
    if i < j {
        lemma_digits_val_nonneg(s, i, j - 1);
    }
}

/// Appending digits never decreases the value of the run.
pub proof fn lemma_digits_val_monotone(s: Seq<char>, i: int, j: int, k: int)
    requires
        0 <= i <= j <= k <= s.len(),
        forall|m: int| i <= m < k ==> spec_is_digit(s[m]),
    ensures
        spec_digits_val(s, i, j) <= spec_digits_val(s, i, k),
    decreases k - j,
{
    if j < k {
        lemma_digits_val_monotone(s, i, j, k - 1);
        lemma_digits_val_nonneg(s, i, k - 1);
    }
}

/// Prepends a token to a lexing result, keeping failure.
pub open spec fn spec_cons_token(t: SpecToken, rest: Option<Seq<SpecToken>>) -> Option<
    Seq<SpecToken>,
> {
    match rest {
        Some(toks) => Some(seq![t] + toks),
        None => None,
    }
}

/// The token sequence of `s[i..]`, or `None` where a character fits no
/// token, or a number exceeds `u32::MAX`.
pub open spec fn spec_lex(s: Seq<char>, i: int) -> Option<Seq<SpecToken>>
    decreases s.len() - i when 0 <= i <= s.len() via spec_lex_decreases
{
    if i >= s.len() {
        Some(Seq::empty())
    } else {
        let c = s[i];
        if spec_is_ws(c) {
            spec_lex(s, i + 1)
        } else if c == ';' {
            spec_cons_token(SpecToken::Semicolon, spec_lex(s, i + 1))
        } else if c == '[' {
            spec_cons_token(SpecToken::OpenBracket, spec_lex(s, i + 1))
        } else if c == ']' {
            spec_cons_token(SpecToken::CloseBracket, spec_lex(s, i + 1))
        } else if spec_is_digit(c) {
            let j = spec_scan_digits(s, i);
            let v = spec_digits_val(s, i, j);
            if v <= u32::MAX {
                spec_cons_token(SpecToken::Number(v as u32), spec_lex(s, j))
            } else {
                None
            }
        } else if spec_is_word_start(c) {
            let j = spec_scan_word(s, i + 1);
            spec_cons_token(SpecToken::Word(s.subrange(i, j)), spec_lex(s, j))
        } else {
            None
        }
    }
}

#[via_fn]
proof fn spec_lex_decreases(s: Seq<char>, i: int) {
    if 0 <= i && i < s.len() {
        if spec_is_digit(s[i]) {
            lemma_scan_digits_bounds(s, i);
        } else if !spec_is_ws(s[i]) && s[i] != ';' && s[i] != '[' && s[i] != ']'
            && spec_is_word_start(s[i]) {
            lemma_scan_word_bounds(s, i + 1);
        }
    }
}

fn is_ws(c: char) -> (r: bool)
    ensures
        r == spec_is_ws(c),
{
    c == ' ' || c == '\t' || c == '\n' || c == '\u{c}'
}

fn is_digit(c: char) -> (r: bool)
    ensures
        r == spec_is_digit(c),
{
    '0' <= c && c <= '9'
}

fn is_word_start(c: char) -> (r: bool)
    ensures
        r == spec_is_word_start(c),
{
    ('a' <= c && c <= 'z') || ('A' <= c && c <= 'Z') || c == '_' || c == '-'
}

fn is_word_char(c: char) -> (r: bool)
    ensures
        r == spec_is_word_char(c),
{
    is_word_start(c) || is_digit(c)
}

/// The end of the word-character run starting at `i`.
fn scan_word(s: &str, i: usize) -> (j: usize)
    requires
        i <= s@.len(),
    ensures
        j == spec_scan_word(s@, i as int),
        i <= j <= s@.len(),
    decreases s@.len() - i,
{
    let n: usize = s.unicode_len();
    if i == n {
        i
    } else if is_word_char(s.get_char(i)) {
        scan_word(s, i + 1)
    } else {
        i
    }
}

/// The end of the digit run starting at `i`.
fn scan_digits(s: &str, i: usize) -> (j: usize)
    requires
        i <= s@.len(),
    ensures
        j == spec_scan_digits(s@, i as int),
        i <= j <= s@.len(),
    decreases s@.len() - i,
{
    let n: usize = s.unicode_len();
    if i == n {
        i
    } else if is_digit(s.get_char(i)) {
        scan_digits(s, i + 1)
    } else {
        i
    }
}

/// The value of the digit run `s[i..j)`, or `None` where it exceeds
/// `u32::MAX`.
fn digits_value(s: &str, i: usize, j: usize) -> (r: Option<u32>)
    requires
        i <= j <= s@.len(),
        forall|k: int| i <= k < j ==> spec_is_digit(s@[k]),
    ensures
        match r {
            Some(v) => v == spec_digits_val(s@, i as int, j as int),
            None => spec_digits_val(s@, i as int, j as int) > u32::MAX,
        },
{
    let mut acc: u32 = 0;
    let mut k: usize = i;
    while k < j
        invariant
            i <= k <= j <= s@.len(),
            forall|m: int| i <= m < j ==> spec_is_digit(s@[m]),
            acc == spec_digits_val(s@, i as int, k as int),
        decreases j - k,
    {
        let c = s.get_char(k);
        proof {
            assert(spec_is_digit(s@[k as int]));
        }
        let d: u32 = c as u32 - '0' as u32;
        let wide: u64 = (acc as u64) * 10 + (d as u64);
        if wide > u32::MAX as u64 {
            proof {
                assert(spec_digits_val(s@, i as int, k as int + 1) == wide);
                lemma_digits_val_monotone(s@, i as int, k as int + 1, j as int);
            }
            return None;
        }
        acc = wide as u32;
        k = k + 1;
    }
    Some(acc)
}

/// The token sequence of `s[i..]`, or `None` on a malformed character or an
/// oversized number.
pub fn lex_from(s: &str, i: usize) -> (r: Option<Vec<SchemaToken>>)
    requires
        i <= s@.len(),
    ensures
        match r {
            Some(toks) => spec_lex(s@, i as int) == Some(toks.deep_view()),
            None => spec_lex(s@, i as int) is None,
        },
    decreases s@.len() - i,
{
    let n: usize = s.unicode_len();
    if i >= n {
        let empty: Vec<SchemaToken> = Vec::new();
        proof {
            assert(empty.deep_view() =~= Seq::<SpecToken>::empty());
        }
        return Some(empty);
    }
    let c = s.get_char(i);
    if is_ws(c) {
        lex_from(s, i + 1)
    } else if c == ';' {
        lex_cons(SchemaToken::Semicolon, lex_from(s, i + 1))
    } else if c == '[' {
        lex_cons(SchemaToken::OpenBracket, lex_from(s, i + 1))
    } else if c == ']' {
        lex_cons(SchemaToken::CloseBracket, lex_from(s, i + 1))
    } else if is_digit(c) {
        let j = scan_digits(s, i);
        proof {
            lemma_scan_digits_bounds(s@, i as int);
        }
        match digits_value(s, i, j) {
            Some(v) => lex_cons(SchemaToken::Number(v), lex_from(s, j)),
            None => None,
        }
    } else if is_word_start(c) {
        let j = scan_word(s, i + 1);
        let w = s.substring_char(i, j);
        lex_cons(SchemaToken::Word(w.to_owned()), lex_from(s, j))
    } else {
        None
    }
}

/// Prepends a token to a lexing result, keeping failure.
fn lex_cons(t: SchemaToken, rest: Option<Vec<SchemaToken>>) -> (r: Option<Vec<SchemaToken>>)
    ensures
        match r {
            Some(toks) => spec_cons_token(t@, match rest {
                Some(v) => Some(v.deep_view()),
                None => None,
            }) == Some(toks.deep_view()),
            None => rest is None,
        },
{
    match rest {
        Some(mut toks) => {
            let ghost before = toks.deep_view();
            toks.insert(0, t);
            proof {
                assert(toks.deep_view() =~= seq![t@] + before);
            }
            Some(toks)
        },
        None => None,
    }
}

/// The token sequence of a whole schema string.
pub fn lex_schema(s: &str) -> (r: Option<Vec<SchemaToken>>)
    ensures
        match r {
            Some(toks) => spec_lex(s@, 0) == Some(toks.deep_view()),
            None => spec_lex(s@, 0) is None,
        },
{
    lex_from(s, 0)
}

/// The mathematical content of one parsed field declaration.
pub struct SpecRawField {
    pub leading: Seq<char>,
    pub name: Seq<char>,
    pub count: u32,
}

/// One parsed field declaration, before resolution: the leading word (a
/// primitive keyword or a sub-structure type name), the field identifier,
/// and the element count (1 where omitted).
#[derive(Debug, Clone, PartialEq)]
pub struct RawField {
    pub leading: String,
    pub name: String,
    pub count: u32,
}

impl View for RawField {
    type V = SpecRawField;

    open spec fn view(&self) -> SpecRawField {
        SpecRawField { leading: self.leading@, name: self.name@, count: self.count }
    }
}

impl DeepView for RawField {
    type V = SpecRawField;

    open spec fn deep_view(&self) -> SpecRawField {
        self.view()
    }
}

/// Prepends a field to a parsing result, keeping failure.
pub open spec fn spec_cons_field(f: SpecRawField, rest: Option<Seq<SpecRawField>>) -> Option<
    Seq<SpecRawField>,
> {
    match rest {
        Some(fs) => Some(seq![f] + fs),
        None => None,
    }
}

/// The field declarations encoded by a token sequence, or `None` where the
/// tokens do not fit the grammar `word word [count | '[' count ']'] ';'`.
pub open spec fn spec_parse_fields(toks: Seq<SpecToken>) -> Option<Seq<SpecRawField>>
    decreases toks.len(),
{
    if toks.len() == 0 {
        Some(Seq::empty())
    } else if toks.len() < 3 {
        None
    } else {
        match (toks[0], toks[1]) {
            (SpecToken::Word(leading), SpecToken::Word(name)) => match toks[2] {
                SpecToken::Semicolon => spec_cons_field(
                    SpecRawField { leading, name, count: 1 },
                    spec_parse_fields(toks.skip(3)),
                ),
                SpecToken::Number(v) => {
                    if toks.len() >= 4 && toks[3] is Semicolon {
                        spec_cons_field(
                            SpecRawField { leading, name, count: v },
                            spec_parse_fields(toks.skip(4)),
                        )
                    } else {
                        None
                    }
                },
                SpecToken::OpenBracket => {
                    if toks.len() >= 6 && toks[3] is Number && toks[4] is CloseBracket && toks[5]
                        is Semicolon {
                        spec_cons_field(
                            SpecRawField { leading, name, count: toks[3]->Number_0 },
                            spec_parse_fields(toks.skip(6)),
                        )
                    } else {
                        None
                    }
                },
                _ => None,
            },
            _ => None,
        }
    }
}

/// The field declarations of a token list from index `i` on.
pub fn parse_fields_from(toks: &Vec<SchemaToken>, i: usize) -> (r: Option<Vec<RawField>>)
    requires
        i <= toks@.len(),
    ensures
        match r {
            Some(fields) => spec_parse_fields(toks.deep_view().skip(i as int)) == Some(
                fields.deep_view(),
            ),
            None => spec_parse_fields(toks.deep_view().skip(i as int)) is None,
        },
    decreases toks@.len() - i,
{
    let ghost rest = toks.deep_view().skip(i as int);
    let n: usize = toks.len();
    proof {
        assert(rest.len() == n - i);
        assert forall|k: int| 0 <= k < rest.len() implies rest[k] == toks@[i + k]@ by {
            assert(toks.deep_view()[i + k] == toks@[i + k]@);
        }
    }
    if i == n {
        let empty: Vec<RawField> = Vec::new();
        proof {
            assert(empty.deep_view() =~= Seq::<SpecRawField>::empty());
        }
        return Some(empty);
    }
    if n - i < 3 {
        return None;
    }
    match (&toks[i], &toks[i + 1]) {
        (SchemaToken::Word(leading), SchemaToken::Word(name)) => match &toks[i + 2] {
            SchemaToken::Semicolon => {
                proof {
                    assert(rest.skip(3) =~= toks.deep_view().skip(i as int + 3));
                }
                field_cons(
                    RawField { leading: leading.clone(), name: name.clone(), count: 1 },
                    parse_fields_from(toks, i + 3),
                )
            },
            SchemaToken::Number(v) => {
                if n - i >= 4 && matches!(&toks[i + 3], SchemaToken::Semicolon) {
                    proof {
                        assert(rest.skip(4) =~= toks.deep_view().skip(i as int + 4));
                    }
                    field_cons(
                        RawField { leading: leading.clone(), name: name.clone(), count: *v },
                        parse_fields_from(toks, i + 4),
                    )
                } else {
                    None
                }
            },
            SchemaToken::OpenBracket => {
                if n - i >= 6 && matches!(&toks[i + 4], SchemaToken::CloseBracket) && matches!(
                    &toks[i + 5],
                    SchemaToken::Semicolon,
                ) {
                    match &toks[i + 3] {
                        SchemaToken::Number(v) => {
                            proof {
                                assert(rest.skip(6) =~= toks.deep_view().skip(i as int + 6));
                            }
                            field_cons(
                                RawField {
                                    leading: leading.clone(),
                                    name: name.clone(),
                                    count: *v,
                                },
                                parse_fields_from(toks, i + 6),
                            )
                        },
                        _ => None,
                    }
                } else {
                    None
                }
            },
            _ => None,
        },
        _ => None,
    }
}

/// The mathematical content of one resolved field entry.
pub struct SpecFieldEntry {
    pub path: Seq<char>,
    pub offset: int,
    pub ty: StructureFieldTypes,
}

/// One resolved field: its dotted path, its byte offset from the start of
/// the structure, and its primitive kind with element count.
#[derive(Debug, Clone, PartialEq)]
pub struct FieldEntry {
    pub path: String,
    pub offset: usize,
    pub ty: StructureFieldTypes,
}

impl View for FieldEntry {
    type V = SpecFieldEntry;

    open spec fn view(&self) -> SpecFieldEntry {
        SpecFieldEntry { path: self.path@, offset: self.offset as int, ty: self.ty }
    }
}

impl DeepView for FieldEntry {
    type V = SpecFieldEntry;

    open spec fn deep_view(&self) -> SpecFieldEntry {
        self.view()
    }
}

/// Resolution of a list of parsed fields against a catalog, carrying the
/// running byte cursor.  `fuel` bounds how deep sub-structure references may
/// nest; the top level passes the catalog's size, which only a reference
/// cycle can exhaust.  A cursor that would pass `usize::MAX` is a size
/// inconsistency.
pub open spec fn spec_resolve_fields(
    fields: Seq<SpecRawField>,
    catalog: Seq<DescView>,
    prefix: Seq<char>,
    cursor: int,
    fuel: nat,
) -> Result<(Seq<SpecFieldEntry>, int), SchemaError>
    decreases fuel, 0int, fields.len(),
{
    if fields.len() == 0 {
        Ok((Seq::empty(), cursor))
    } else {
        let f = fields[0];
        match StructureFieldTypes::spec_from_type(f.leading, f.count as usize) {
            Some(ty) => {
                let sz = ty.spec_total_size();
                if cursor + sz > usize::MAX {
                    Err(SchemaError::SizeMismatch)
                } else {
                    match spec_resolve_fields(
                        fields.drop_first(),
                        catalog,
                        prefix,
                        cursor + sz,
                        fuel,
                    ) {
                        Ok((entries, end)) => Ok(
                            (
                                seq![
                                    SpecFieldEntry { path: prefix + f.name, offset: cursor, ty },
                                ] + entries,
                                end,
                            ),
                        ),
                        Err(e) => Err(e),
                    }
                }
            },
            None => match spec_lookup(catalog, f.leading) {
                None => Err(SchemaError::UnresolvedSubStructureReference),
                Some(d) => {
                    if fuel == 0 {
                        Err(SchemaError::CyclicSubStructureReference)
                    } else {
                        match spec_resolve_schema(
                            d.schema,
                            catalog,
                            prefix + f.name + "."@,
                            cursor,
                            (fuel - 1) as nat,
                        ) {
                            Err(e) => Err(e),
                            Ok((sub, _sub_end)) => {
                                if cursor + d.size > usize::MAX {
                                    Err(SchemaError::SizeMismatch)
                                } else {
                                    match spec_resolve_fields(
                                        fields.drop_first(),
                                        catalog,
                                        prefix,
                                        cursor + d.size,
                                        fuel,
                                    ) {
                                        Ok((entries, end)) => Ok((sub + entries, end)),
                                        Err(e) => Err(e),
                                    }
                                }
                            },
                        }
                    }
                },
            },
        }
    }
}

/// Resolution of a whole schema text: tokenize, parse the field grammar,
/// then resolve the fields.  A lexing or grammar failure is a
/// `MalformedSchemaToken` error, never an empty field list.
pub open spec fn spec_resolve_schema(
    schema: Seq<char>,
    catalog: Seq<DescView>,
    prefix: Seq<char>,
    cursor: int,
    fuel: nat,
) -> Result<(Seq<SpecFieldEntry>, int), SchemaError>
    decreases fuel, 1int, 0int,
{
    match spec_lex(schema, 0) {
        None => Err(SchemaError::MalformedSchemaToken),
        Some(toks) => match spec_parse_fields(toks) {
            None => Err(SchemaError::MalformedSchemaToken),
            Some(fields) => spec_resolve_fields(fields, catalog, prefix, cursor, fuel),
        },
    }
}

/// The field map of a descriptor: its schema resolved from offset 0, with
/// the final cursor required to equal the declared byte size.
pub open spec fn spec_resolve_descriptor(desc: DescView, catalog: Seq<DescView>) -> Result<
    Seq<SpecFieldEntry>,
    SchemaError,
> {
    match spec_resolve_schema(desc.schema, catalog, Seq::empty(), 0, catalog.len()) {
        Err(e) => Err(e),
        Ok((entries, end)) => if end == desc.size {
            Ok(entries)
        } else {
            Err(SchemaError::SizeMismatch)
        },
    }
}

/// Resolves parsed fields from index `i` on, against the catalog, with the
/// given path prefix and byte cursor.
fn resolve_fields(
    fields: &Vec<RawField>,
    i: usize,
    catalog: &FrcStructDescDB,
    prefix: &str,
    cursor: usize,
    fuel: usize,
) -> (r: Result<(Vec<FieldEntry>, usize), SchemaError>)
    requires
        i <= fields@.len(),
    ensures
        ({
            let s = spec_resolve_fields(
                fields.deep_view().skip(i as int),
                catalog@,
                prefix@,
                cursor as int,
                fuel as nat,
            );
            match r {
                Ok((entries, end)) => s == Ok::<_, SchemaError>((entries.deep_view(), end as int)),
                Err(e) => s == Err::<(Seq<SpecFieldEntry>, int), _>(e),
            }
        }),
    decreases fuel, 0int, fields@.len() - i,
{
    let ghost rest = fields.deep_view().skip(i as int);
    let n: usize = fields.len();
    proof {
        assert(rest.len() == n - i);
        assert forall|k: int| 0 <= k < rest.len() implies rest[k] == fields@[i + k]@ by {
            assert(fields.deep_view()[i + k] == fields@[i + k]@);
        }
    }
    if i == n {
        let empty: Vec<FieldEntry> = Vec::new();
        proof {
            assert(empty.deep_view() =~= Seq::<SpecFieldEntry>::empty());
        }
        return Ok((empty, cursor));
    }
    let f = &fields[i];
    proof {
        assert(rest.drop_first() =~= fields.deep_view().skip(i as int + 1));
    }
    match StructureFieldTypes::from_type(f.leading.as_str(), f.count as usize) {
        Some(ty) => {
            match ty.checked_size() {
                None => Err(SchemaError::SizeMismatch),
                Some(sz) => {
                    if sz > usize::MAX - cursor {
                        Err(SchemaError::SizeMismatch)
                    } else {
                        match resolve_fields(fields, i + 1, catalog, prefix, cursor + sz, fuel) {
                            Ok((entries, end)) => {
                                let mut path = prefix.to_owned();
                                path.append(f.name.as_str());
                                let entry = FieldEntry { path, offset: cursor, ty };
                                let ghost tail = entries.deep_view();
                                let mut out = entries;
                                out.insert(0, entry);
                                proof {
                                    assert(out.deep_view() =~= seq![entry@] + tail);
                                }
                                Ok((out, end))
                            },
                            Err(e) => Err(e),
                        }
                    }
                },
            }
        },
        None => {
            match catalog.get(f.leading.as_str()) {
                None => Err(SchemaError::UnresolvedSubStructureReference),
                Some(desc) => {
                    if fuel == 0 {
                        Err(SchemaError::CyclicSubStructureReference)
                    } else {
                        let mut nested = prefix.to_owned();
                        nested.append(f.name.as_str());
                        nested.append(".");
                        proof {
                            assert(nested@ =~= prefix@ + f@.name + "."@);
                        }
                        match parse_schema(
                            desc.schema.as_str(),
                            catalog,
                            nested.as_str(),
                            cursor,
                            fuel - 1,
                        ) {
                            Err(e) => Err(e),
                            Ok((sub, _sub_end)) => {
                                if desc.size > usize::MAX - cursor {
                                    Err(SchemaError::SizeMismatch)
                                } else {
                                    match resolve_fields(
                                        fields,
                                        i + 1,
                                        catalog,
                                        prefix,
                                        cursor + desc.size,
                                        fuel,
                                    ) {
                                        Ok((entries, end)) => {
                                            let ghost subdv = sub.deep_view();
                                            let ghost taildv = entries.deep_view();
                                            let mut out = sub;
                                            let mut tail = entries;
                                            out.append(&mut tail);
                                            proof {
                                                assert(out.deep_view() =~= subdv + taildv);
                                            }
                                            Ok((out, end))
                                        },
                                        Err(e) => Err(e),
                                    }
                                }
                            },
                        }
                    }
                },
            }
        },
    }
}

/// Resolves a schema text against the catalog, prefixing every emitted path
/// with `prefix` and starting the byte cursor at `offset`.  Returns the
/// resolved entries and the final cursor, or the first error.
pub fn parse_schema(
    schema: &str,
    catalog: &FrcStructDescDB,
    prefix: &str,
    offset: usize,
    fuel: usize,
) -> (r: Result<(Vec<FieldEntry>, usize), SchemaError>)
    ensures
        ({
            let s = spec_resolve_schema(schema@, catalog@, prefix@, offset as int, fuel as nat);
            match r {
                Ok((entries, end)) => s == Ok::<_, SchemaError>((entries.deep_view(), end as int)),
                Err(e) => s == Err::<(Seq<SpecFieldEntry>, int), _>(e),
            }
        }),
    decreases fuel, 1int, 0int,
{
    match lex_schema(schema) {
        None => Err(SchemaError::MalformedSchemaToken),
        Some(toks) => match parse_fields_from(&toks, 0) {
            None => {
                proof {
                    assert(toks.deep_view().skip(0) =~= toks.deep_view());
                }
                Err(SchemaError::MalformedSchemaToken)
            },
            Some(fields) => {
                proof {
                    assert(toks.deep_view().skip(0) =~= toks.deep_view());
                    assert(fields.deep_view().skip(0) =~= fields.deep_view());
                }
                resolve_fields(&fields, 0, catalog, prefix, offset, fuel)
            },
        },
    }
}

/// Resolves a schema text from offset 0 with no path prefix, against the
/// catalog, allowing sub-structure references to nest as deep as the catalog
/// has entries.
pub fn parse_schema_toplevel(schema: &str, catalog: &FrcStructDescDB) -> (r: Result<
    Vec<FieldEntry>,
    SchemaError,
>)
    ensures
        ({
            let s = spec_resolve_schema(schema@, catalog@, Seq::empty(), 0, catalog@.len() as nat);
            match r {
                Ok(entries) => s is Ok && s->Ok_0.0 == entries.deep_view(),
                Err(e) => s == Err::<(Seq<SpecFieldEntry>, int), _>(e),
            }
        }),
{
    let empty_prefix: &str = "";
    proof {
        reveal_strlit("");
        assert(empty_prefix@ =~= Seq::<char>::empty());
    }
    match parse_schema(schema, catalog, empty_prefix, 0, catalog.len()) {
        Ok((entries, _end)) => Ok(entries),
        Err(e) => Err(e),
    }
}

/// The field map of a descriptor: its schema resolved from offset 0.  The
/// final cursor must land exactly on the declared byte size; any other
/// outcome is a `SizeMismatch`, reported instead of a partial map.
pub fn resolve_descriptor(desc: &FrcStructDesc, catalog: &FrcStructDescDB) -> (r: Result<
    Vec<FieldEntry>,
    SchemaError,
>)
    ensures
        ({
            let s = spec_resolve_descriptor(desc@, catalog@);
            match r {
                Ok(entries) => s == Ok::<_, SchemaError>(entries.deep_view()),
                Err(e) => s == Err::<Seq<SpecFieldEntry>, _>(e),
            }
        }),
        r is Ok ==> spec_resolve_schema(desc@.schema, catalog@, Seq::empty(), 0, catalog@.len() as nat)
            ->Ok_0.1 == desc@.size,
{
    let empty_prefix: &str = "";
    proof {
        reveal_strlit("");
        assert(empty_prefix@ =~= Seq::<char>::empty());
    }
    match parse_schema(desc.schema.as_str(), catalog, empty_prefix, 0, catalog.len()) {
        Err(e) => Err(e),
        Ok((entries, end)) => {
            if end == desc.size {
                Ok(entries)
            } else {
                Err(SchemaError::SizeMismatch)
            }
        },
    }
}


/// All offsets lie within `[lo, hi]` and never decrease from one entry to
/// the next.
pub open spec fn spec_offsets_ordered(entries: Seq<SpecFieldEntry>, lo: int, hi: int) -> bool {
    &&& forall|k: int|
        0 <= k < entries.len() ==> lo <= #[trigger] entries[k].offset && entries[k].offset <= hi
    &&& forall|k: int, l: int|
        0 <= k < l < entries.len() ==> #[trigger] entries[k].offset <= #[trigger] entries[l].offset
}

/// Every catalogued type spans exactly its declared size wherever it is
/// inlined: resolving its schema from any cursor, under any prefix and any
/// fuel, ends -- when it succeeds at all -- at `cursor + size`.  This is
/// what validating each descriptor at registration time buys.
pub open spec fn spec_catalog_spans(catalog: Seq<DescView>) -> bool {
    forall|d: DescView, prefix: Seq<char>, cursor: int, fuel: nat|
        spec_lookup(catalog, d.type_str) == Some(d) && 0 <= cursor ==> match #[trigger] spec_resolve_schema(
            d.schema,
            catalog,
            prefix,
            cursor,
            fuel,
        ) {
            Ok(pair) => pair.1 == cursor + d.size,
            Err(e) => true,
        }
}

/// Against a catalog whose types span their declared sizes, resolution emits
/// offsets in monotonically non-decreasing declaration order, all within the
/// byte range the cursor traverses.
pub proof fn lemma_resolve_fields_ordered(
    fields: Seq<SpecRawField>,
    catalog: Seq<DescView>,
    prefix: Seq<char>,
    cursor: int,
    fuel: nat,
)
    requires
        spec_catalog_spans(catalog),
        0 <= cursor,
    ensures
        match spec_resolve_fields(fields, catalog, prefix, cursor, fuel) {
            Ok(pair) => cursor <= pair.1 && spec_offsets_ordered(pair.0, cursor, pair.1),
            Err(e) => true,
        },
    decreases fuel, 0int, fields.len(),
{
    if fields.len() > 0 {
        let f = fields[0];
        match StructureFieldTypes::spec_from_type(f.leading, f.count as usize) {
            Some(ty) => {
                let sz = ty.spec_total_size();
                if cursor + sz <= usize::MAX {
                    lemma_resolve_fields_ordered(
                        fields.drop_first(),
                        catalog,
                        prefix,
                        cursor + sz,
                        fuel,
                    );
                    match spec_resolve_fields(fields.drop_first(), catalog, prefix, cursor + sz, fuel) {
                        Ok(pair) => {
                            let e = SpecFieldEntry { path: prefix + f.name, offset: cursor, ty };
                            let entries = seq![e] + pair.0;
                            assert forall|k: int| 0 <= k < entries.len() implies cursor <= #[trigger] entries[k].offset
                                && entries[k].offset <= pair.1 by {
                                if k > 0 {
                                    assert(entries[k] == pair.0[k - 1]);
                                }
                            }
                            assert forall|k: int, l: int| 0 <= k < l < entries.len() implies #[trigger] entries[k].offset
                                <= #[trigger] entries[l].offset by {
                                assert(entries[l] == pair.0[l - 1]);
                                if k > 0 {
                                    assert(entries[k] == pair.0[k - 1]);
                                }
                            }
                        },
                        Err(e) => {},
                    }
                }
            },
            None => match spec_lookup(catalog, f.leading) {
                None => {},
                Some(d) => {
                    if fuel > 0 {
                        let nested_prefix = prefix + f.name + "."@;
                        match spec_lex(d.schema, 0) {
                            None => {},
                            Some(toks) => match spec_parse_fields(toks) {
                                None => {},
                                Some(nested_fields) => {
                                    lemma_resolve_fields_ordered(
                                        nested_fields,
                                        catalog,
                                        nested_prefix,
                                        cursor,
                                        (fuel - 1) as nat,
                                    );
                                },
                            },
                        }
                        crate::registry::lemma_lookup_found(catalog, f.leading);
                        match spec_resolve_schema(
                            d.schema,
                            catalog,
                            nested_prefix,
                            cursor,
                            (fuel - 1) as nat,
                        ) {
                            Err(e) => {},
                            Ok(sub_pair) => {
                                assert(sub_pair.1 == cursor + d.size);
                                if cursor + d.size <= usize::MAX {
                                    lemma_resolve_fields_ordered(
                                        fields.drop_first(),
                                        catalog,
                                        prefix,
                                        cursor + d.size,
                                        fuel,
                                    );
                                    match spec_resolve_fields(
                                        fields.drop_first(),
                                        catalog,
                                        prefix,
                                        cursor + d.size,
                                        fuel,
                                    ) {
                                        Err(e) => {},
                                        Ok(pair) => {
                                            let entries = sub_pair.0 + pair.0;
                                            let cut = sub_pair.0.len() as int;
                                            assert forall|k: int| 0 <= k < entries.len() implies cursor
                                                <= #[trigger] entries[k].offset && entries[k].offset
                                                <= pair.1 by {
                                                if k < cut {
                                                    assert(entries[k] == sub_pair.0[k]);
                                                } else {
                                                    assert(entries[k] == pair.0[k - cut]);
                                                }
                                            }
                                            assert forall|k: int, l: int| 0 <= k < l < entries.len()
                                                implies #[trigger] entries[k].offset
                                                <= #[trigger] entries[l].offset by {
                                                if k < cut {
                                                    assert(entries[k] == sub_pair.0[k]);
                                                } else {
                                                    assert(entries[k] == pair.0[k - cut]);
                                                }
                                                if l < cut {
                                                    assert(entries[l] == sub_pair.0[l]);
                                                } else {
                                                    assert(entries[l] == pair.0[l - cut]);
                                                }
                                            }
                                        },
                                    }
                                }
                            },
                        }
                    }
                },
            },
        }
    }
}

/// The field-map invariant: against a catalog whose types span their
/// declared sizes, a descriptor's resolved map has monotonically
/// non-decreasing offsets, all between 0 and the declared byte size.
pub proof fn lemma_resolved_offsets_ordered(desc: DescView, catalog: Seq<DescView>)
    requires
        spec_catalog_spans(catalog),
    ensures
        match spec_resolve_descriptor(desc, catalog) {
            Ok(entries) => spec_offsets_ordered(entries, 0, desc.size as int),
            Err(e) => true,
        },
{
    match spec_lex(desc.schema, 0) {
        None => {},
        Some(toks) => match spec_parse_fields(toks) {
            None => {},
            Some(fields) => {
                lemma_resolve_fields_ordered(fields, catalog, Seq::empty(), 0, catalog.len() as nat);
            },
        },
    }
}


/// Fuel never changes a successful resolution: it only bounds nesting, so a
/// result obtained with some fuel is the result at any larger fuel too.
pub proof fn lemma_resolve_fields_fuel(
    fields: Seq<SpecRawField>,
    catalog: Seq<DescView>,
    prefix: Seq<char>,
    cursor: int,
    lo: nat,
    hi: nat,
)
    requires
        lo <= hi,
    ensures
        spec_resolve_fields(fields, catalog, prefix, cursor, lo) is Ok ==> spec_resolve_fields(
            fields,
            catalog,
            prefix,
            cursor,
            hi,
        ) == spec_resolve_fields(fields, catalog, prefix, cursor, lo),
    decreases lo, 0int, fields.len(),
{
    if fields.len() > 0 {
        let f = fields[0];
        match StructureFieldTypes::spec_from_type(f.leading, f.count as usize) {
            Some(ty) => {
                let sz = ty.spec_total_size();
                if cursor + sz <= usize::MAX {
                    lemma_resolve_fields_fuel(
                        fields.drop_first(),
                        catalog,
                        prefix,
                        cursor + sz,
                        lo,
                        hi,
                    );
                }
            },
            None => match spec_lookup(catalog, f.leading) {
                None => {},
                Some(d) => {
                    if lo > 0 {
                        let nested_prefix = prefix + f.name + "."@;
                        match spec_lex(d.schema, 0) {
                            None => {},
                            Some(toks) => match spec_parse_fields(toks) {
                                None => {},
                                Some(nested_fields) => {
                                    lemma_resolve_fields_fuel(
                                        nested_fields,
                                        catalog,
                                        nested_prefix,
                                        cursor,
                                        (lo - 1) as nat,
                                        (hi - 1) as nat,
                                    );
                                    assert(spec_resolve_schema(
                                        d.schema,
                                        catalog,
                                        nested_prefix,
                                        cursor,
                                        (lo - 1) as nat,
                                    ) == spec_resolve_fields(
                                        nested_fields,
                                        catalog,
                                        nested_prefix,
                                        cursor,
                                        (lo - 1) as nat,
                                    ));
                                    assert(spec_resolve_schema(
                                        d.schema,
                                        catalog,
                                        nested_prefix,
                                        cursor,
                                        (hi - 1) as nat,
                                    ) == spec_resolve_fields(
                                        nested_fields,
                                        catalog,
                                        nested_prefix,
                                        cursor,
                                        (hi - 1) as nat,
                                    ));
                                },
                            },
                        }
                        match spec_resolve_schema(
                            d.schema,
                            catalog,
                            nested_prefix,
                            cursor,
                            (lo - 1) as nat,
                        ) {
                            Err(e) => {},
                            Ok(sub_pair) => {
                                if cursor + d.size <= usize::MAX {
                                    lemma_resolve_fields_fuel(
                                        fields.drop_first(),
                                        catalog,
                                        prefix,
                                        cursor + d.size,
                                        lo,
                                        hi,
                                    );
                                }
                            },
                        }
                    }
                },
            },
        }
    }
}

/// A successful resolution is invariant under sliding the byte cursor down
/// (and renaming the path prefix): only the final cursor moves with it.
pub proof fn lemma_resolve_fields_shift(
    fields: Seq<SpecRawField>,
    catalog: Seq<DescView>,
    prefix_a: Seq<char>,
    cursor_a: int,
    prefix_b: Seq<char>,
    cursor_b: int,
    fuel: nat,
)
    requires
        cursor_b <= cursor_a,
    ensures
        match spec_resolve_fields(fields, catalog, prefix_a, cursor_a, fuel) {
            Ok(pair) => spec_resolve_fields(fields, catalog, prefix_b, cursor_b, fuel) matches Ok(
                pair_b,
            ) && pair_b.1 == pair.1 - cursor_a + cursor_b,
            Err(e) => true,
        },
    decreases fuel, 0int, fields.len(),
{
    if fields.len() > 0 {
        let f = fields[0];
        match StructureFieldTypes::spec_from_type(f.leading, f.count as usize) {
            Some(ty) => {
                let sz = ty.spec_total_size();
                if cursor_a + sz <= usize::MAX {
                    lemma_resolve_fields_shift(
                        fields.drop_first(),
                        catalog,
                        prefix_a,
                        cursor_a + sz,
                        prefix_b,
                        cursor_b + sz,
                        fuel,
                    );
                }
            },
            None => match spec_lookup(catalog, f.leading) {
                None => {},
                Some(d) => {
                    if fuel > 0 {
                        let nested_a = prefix_a + f.name + "."@;
                        let nested_b = prefix_b + f.name + "."@;
                        match spec_lex(d.schema, 0) {
                            None => {},
                            Some(toks) => match spec_parse_fields(toks) {
                                None => {},
                                Some(nested_fields) => {
                                    lemma_resolve_fields_shift(
                                        nested_fields,
                                        catalog,
                                        nested_a,
                                        cursor_a,
                                        nested_b,
                                        cursor_b,
                                        (fuel - 1) as nat,
                                    );
                                    assert(spec_resolve_schema(
                                        d.schema,
                                        catalog,
                                        nested_a,
                                        cursor_a,
                                        (fuel - 1) as nat,
                                    ) == spec_resolve_fields(
                                        nested_fields,
                                        catalog,
                                        nested_a,
                                        cursor_a,
                                        (fuel - 1) as nat,
                                    ));
                                    assert(spec_resolve_schema(
                                        d.schema,
                                        catalog,
                                        nested_b,
                                        cursor_b,
                                        (fuel - 1) as nat,
                                    ) == spec_resolve_fields(
                                        nested_fields,
                                        catalog,
                                        nested_b,
                                        cursor_b,
                                        (fuel - 1) as nat,
                                    ));
                                },
                            },
                        }
                        match spec_resolve_schema(
                            d.schema,
                            catalog,
                            nested_a,
                            cursor_a,
                            (fuel - 1) as nat,
                        ) {
                            Err(e) => {},
                            Ok(sub_pair) => {
                                if cursor_a + d.size <= usize::MAX {
                                    lemma_resolve_fields_shift(
                                        fields.drop_first(),
                                        catalog,
                                        prefix_a,
                                        cursor_a + d.size,
                                        prefix_b,
                                        cursor_b + d.size,
                                        fuel,
                                    );
                                }
                            },
                        }
                    }
                },
            },
        }
    }
}

/// Every descriptor of the catalog resolves against it, from offset 0, to a
/// field map whose final cursor is exactly its declared size.
pub open spec fn spec_catalog_consistent(catalog: Seq<DescView>) -> bool {
    forall|i: int|
        0 <= i < catalog.len() ==> (#[trigger] spec_resolve_descriptor(catalog[i], catalog)) is Ok
}

/// Validating every descriptor at registration is enough: in a consistent
/// catalog, every type spans exactly its declared size wherever its schema
/// is inlined, whatever the cursor, prefix and fuel.
pub proof fn lemma_consistent_catalog_spans(catalog: Seq<DescView>)
    requires
        spec_catalog_consistent(catalog),
    ensures
        spec_catalog_spans(catalog),
{
    assert forall|d: DescView, prefix: Seq<char>, cursor: int, fuel: nat|
        spec_lookup(catalog, d.type_str) == Some(d) && 0 <= cursor implies match #[trigger] spec_resolve_schema(
        d.schema,
        catalog,
        prefix,
        cursor,
        fuel,
    ) {
        Ok(pair) => pair.1 == cursor + d.size,
        Err(e) => true,
    } by {
        crate::registry::lemma_lookup_in_catalog(catalog, d.type_str);
        let i = choose|i: int| 0 <= i < catalog.len() && catalog[i] == d;
        assert(spec_resolve_descriptor(catalog[i], catalog) is Ok);
        match spec_lex(d.schema, 0) {
            None => {},
            Some(toks) => match spec_parse_fields(toks) {
                None => {},
                Some(fields) => {
                    match spec_resolve_fields(fields, catalog, prefix, cursor, fuel) {
                        Err(e) => {},
                        Ok(pair) => {
                            lemma_resolve_fields_shift(
                                fields,
                                catalog,
                                prefix,
                                cursor,
                                Seq::empty(),
                                0,
                                fuel,
                            );
                            let base_len = catalog.len() as nat;
                            if fuel <= base_len {
                                lemma_resolve_fields_fuel(
                                    fields,
                                    catalog,
                                    Seq::empty(),
                                    0,
                                    fuel,
                                    base_len,
                                );
                            } else {
                                lemma_resolve_fields_fuel(
                                    fields,
                                    catalog,
                                    Seq::empty(),
                                    0,
                                    base_len,
                                    fuel,
                                );
                            }
                        },
                    }
                },
            },
        }
    }
}


/// A successful resolution is unchanged by cataloguing one more type: every
/// lookup it made still finds the same entry at the front of the catalog.
pub proof fn lemma_resolve_fields_extend(
    fields: Seq<SpecRawField>,
    catalog: Seq<DescView>,
    added: DescView,
    prefix: Seq<char>,
    cursor: int,
    fuel: nat,
)
    ensures
        match spec_resolve_fields(fields, catalog, prefix, cursor, fuel) {
            Ok(pair) => spec_resolve_fields(fields, catalog.push(added), prefix, cursor, fuel)
                == Ok::<_, SchemaError>(pair),
            Err(e) => true,
        },
    decreases fuel, 0int, fields.len(),
{
    if fields.len() > 0 {
        let f = fields[0];
        match StructureFieldTypes::spec_from_type(f.leading, f.count as usize) {
            Some(ty) => {
                let sz = ty.spec_total_size();
                if cursor + sz <= usize::MAX {
                    lemma_resolve_fields_extend(
                        fields.drop_first(),
                        catalog,
                        added,
                        prefix,
                        cursor + sz,
                        fuel,
                    );
                }
            },
            None => match spec_lookup(catalog, f.leading) {
                None => {},
                Some(d) => {
                    crate::registry::lemma_lookup_push_preserves(catalog, added, f.leading);
                    if fuel > 0 {
                        let nested_prefix = prefix + f.name + "."@;
                        match spec_lex(d.schema, 0) {
                            None => {},
                            Some(toks) => match spec_parse_fields(toks) {
                                None => {},
                                Some(nested_fields) => {
                                    lemma_resolve_fields_extend(
                                        nested_fields,
                                        catalog,
                                        added,
                                        nested_prefix,
                                        cursor,
                                        (fuel - 1) as nat,
                                    );
                                    assert(spec_resolve_schema(
                                        d.schema,
                                        catalog,
                                        nested_prefix,
                                        cursor,
                                        (fuel - 1) as nat,
                                    ) == spec_resolve_fields(
                                        nested_fields,
                                        catalog,
                                        nested_prefix,
                                        cursor,
                                        (fuel - 1) as nat,
                                    ));
                                    assert(spec_resolve_schema(
                                        d.schema,
                                        catalog.push(added),
                                        nested_prefix,
                                        cursor,
                                        (fuel - 1) as nat,
                                    ) == spec_resolve_fields(
                                        nested_fields,
                                        catalog.push(added),
                                        nested_prefix,
                                        cursor,
                                        (fuel - 1) as nat,
                                    ));
                                },
                            },
                        }
                        match spec_resolve_schema(
                            d.schema,
                            catalog,
                            prefix + f.name + "."@,
                            cursor,
                            (fuel - 1) as nat,
                        ) {
                            Err(e) => {},
                            Ok(sub_pair) => {
                                if cursor + d.size <= usize::MAX {
                                    lemma_resolve_fields_extend(
                                        fields.drop_first(),
                                        catalog,
                                        added,
                                        prefix,
                                        cursor + d.size,
                                        fuel,
                                    );
                                }
                            },
                        }
                    }
                },
            },
        }
    }
}

/// Registering a new, validated descriptor keeps the catalog consistent:
/// when every catalogued type already resolves to exactly its declared size,
/// and the newcomer does so against the present catalog, then every type of
/// the extended catalog -- the newcomer included -- still does.
pub proof fn lemma_validated_add_consistent(catalog: Seq<DescView>, desc: DescView)
    requires
        spec_catalog_consistent(catalog),
        spec_resolve_descriptor(desc, catalog) is Ok,
    ensures
        spec_catalog_consistent(catalog.push(desc)),
{
    let extended = catalog.push(desc);
    assert forall|i: int|
        0 <= i < extended.len() implies (#[trigger] spec_resolve_descriptor(
        extended[i],
        extended,
    )) is Ok by {
        let e = extended[i];
        if i < catalog.len() {
            assert(extended[i] == catalog[i]);
            assert(spec_resolve_descriptor(catalog[i], catalog) is Ok);
        } else {
            assert(e == desc);
        }
        match spec_lex(e.schema, 0) {
            None => {},
            Some(toks) => match spec_parse_fields(toks) {
                None => {},
                Some(fields) => {
                    match spec_resolve_fields(fields, catalog, Seq::empty(), 0, catalog.len() as nat) {
                        Err(err) => {},
                        Ok(pair) => {
                            lemma_resolve_fields_extend(
                                fields,
                                catalog,
                                desc,
                                Seq::empty(),
                                0,
                                catalog.len() as nat,
                            );
                            lemma_resolve_fields_fuel(
                                fields,
                                extended,
                                Seq::empty(),
                                0,
                                catalog.len() as nat,
                                extended.len() as nat,
                            );
                            assert(spec_resolve_schema(
                                e.schema,
                                extended,
                                Seq::empty(),
                                0,
                                extended.len() as nat,
                            ) == Ok::<_, SchemaError>(pair));
                        },
                    }
                },
            },
        }
    }
}

/// Prepends a field to a parsing result, keeping failure.
fn field_cons(f: RawField, rest: Option<Vec<RawField>>) -> (r: Option<Vec<RawField>>)
    ensures
        match r {
            Some(fields) => spec_cons_field(f@, match rest {
                Some(v) => Some(v.deep_view()),
                None => None,
            }) == Some(fields.deep_view()),
            None => rest is None,
        },
{
    match rest {
        Some(mut fields) => {
            let ghost before = fields.deep_view();
            fields.insert(0, f);
            proof {
                assert(fields.deep_view() =~= seq![f@] + before);
            }
            Some(fields)
        },
        None => None,
    }
}

} // verus!
