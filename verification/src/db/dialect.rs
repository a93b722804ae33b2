//! Quoted names and placeholders in the notation of each database.
//!
//! A name that is not made of ordinary characters is refused, so that no name
//! can end its quotes.
use crate::etl::script::alias::lemma_nat_text;
use crate::models::connection::DbKind;
use crate::models::errors::{EluEtlError, ErrorView};
use crate::text;
use vstd::prelude::*;

verus! {

#[derive(Debug, Clone, Copy, PartialEq, Eq, Structural)]
pub enum Dialect {
    Mssql,
    Postgres,
    MySql,
    Sqlite,
    Db2,
}

/// The notation of a database; a file has none.
pub open spec fn dialect_of(kind: DbKind) -> Option<Dialect> {
    match kind {
        DbKind::SqlServer => Some(Dialect::Mssql),
        DbKind::Postgres => Some(Dialect::Postgres),
        DbKind::MySql => Some(Dialect::MySql),
        DbKind::Sqlite => Some(Dialect::Sqlite),
        DbKind::File => None,
    }
}

/// The notation of a database.
pub fn dialect_for(kind: DbKind) -> (r: Result<Dialect, EluEtlError>)
    ensures
        match r {
            Ok(d) => dialect_of(kind) == Some(d),
            Err(e) => dialect_of(kind) is None && e@ == ErrorView::Config(
                "檔案連線沒有 SQL 方言"@,
            ),
        },
{
    match kind {
        DbKind::SqlServer => Ok(Dialect::Mssql),
        DbKind::Postgres => Ok(Dialect::Postgres),
        DbKind::MySql => Ok(Dialect::MySql),
        DbKind::Sqlite => Ok(Dialect::Sqlite),
        DbKind::File => Err(EluEtlError::Config("檔案連線沒有 SQL 方言".to_string())),
    }
}

pub open spec fn is_name_char(c: char) -> bool {
    text::is_alnum(c) || c == '_' || c == '$' || c == '#' || c == '-' || c == ' '
}

/// A name of ordinary characters.
pub open spec fn is_name(s: Seq<char>) -> bool {
    s.len() > 0 && forall|i: int| 0 <= i < s.len() ==> is_name_char(#[trigger] s[i])
}

pub open spec fn bad_name(s: Seq<char>) -> ErrorView {
    ErrorView::Config("識別字不合法: "@ + s)
}

/// Refuses a name that is not made of ordinary characters.
pub fn validate_ident(s: &str) -> (r: Result<(), EluEtlError>)
    ensures
        match r {
            Ok(_) => is_name(s@),
            Err(e) => !is_name(s@) && e@ == bad_name(s@),
        },
{
    let chars: Vec<char> = text::chars_of(s);
    let mut ok: bool = chars.len() > 0;
    let mut i: usize = 0;
    while i < chars.len()
        invariant
            i <= chars@.len(),
            chars@ == s@,
            ok ==> chars@.len() > 0 && forall|j: int|
                0 <= j < i ==> is_name_char(#[trigger] s@[j]),
            !ok ==> !is_name(s@),
        decreases chars@.len() - i,
    {
        let c: char = chars[i];
        if !(text::alnum(c) || c == '_' || c == '$' || c == '#' || c == '-' || c == ' ') {
            assert(!is_name_char(s@[i as int]));
            ok = false;
        }
        i += 1;
    }
    if ok {
        Ok(())
    } else {
        Err(EluEtlError::Config(text::cat("識別字不合法: ", s)))
    }
}

/// A name in the quotes of the database.
pub open spec fn quoted_name(d: Dialect, s: Seq<char>) -> Seq<char> {
    match d {
        Dialect::Mssql => seq!['['] + s + seq![']'],
        Dialect::MySql => seq!['`'] + s + seq!['`'],
        _ => seq!['"'] + s + seq!['"'],
    }
}

fn quote_name(d: Dialect, s: &str) -> (r: String)
    ensures
        r@ == quoted_name(d, s@),
{
    let (open, close): (char, char) = match d {
        Dialect::Mssql => ('[', ']'),
        Dialect::MySql => ('`', '`'),
        _ => ('"', '"'),
    };
    let mut t: String = String::new();
    t.push(open);
    t.append(s);
    t.push(close);
    assert(t@ =~= quoted_name(d, s@));
    t
}

/// The pieces of a text between its dots.
pub open spec fn dot_pieces(s: Seq<char>) -> Seq<Seq<char>>
    decreases s.len(),
{
    if s.len() == 0 {
        seq![seq![]]
    } else {
        let before = dot_pieces(s.drop_last());
        if s.last() == '.' {
            before.push(seq![])
        } else {
            before.drop_last().push(before.last().push(s.last()))
        }
    }
}

/// The pieces of a text between its dots.
pub fn split_dots(s: &str) -> (r: Vec<String>)
    ensures
        text::views(r@) == dot_pieces(s@),
        r@.len() > 0,
{
    let chars: Vec<char> = text::chars_of(s);
    let mut done: Vec<String> = Vec::new();
    let mut piece: String = String::new();
    let mut i: usize = 0;
    assert(text::views(done@).push(piece@) =~= dot_pieces(s@.take(0)));
    while i < chars.len()
        invariant
            i <= chars@.len(),
            chars@ == s@,
            text::views(done@).push(piece@) == dot_pieces(s@.take(i as int)),
        decreases chars@.len() - i,
    {
        let c: char = chars[i];
        let ghost before = dot_pieces(s@.take(i as int));
        proof {
            assert(s@.take(i + 1).drop_last() =~= s@.take(i as int));
            assert(before.drop_last() =~= text::views(done@));
            assert(before.last() == piece@);
        }
        if c == '.' {
            proof {
                text::lemma_views_push(done@, piece);
            }
            done.push(piece);
            piece = String::new();
            assert(piece@ =~= seq![]);
        } else {
            piece.push(c);
        }
        i += 1;
    }
    assert(s@.take(i as int) =~= s@);
    proof {
        text::lemma_views_push(done@, piece);
    }
    done.push(piece);
    done
}

/// Names in quotes with a separator between neighbours, or the first bad name.
pub open spec fn quoted_names(d: Dialect, names: Seq<Seq<char>>, sep: Seq<char>) -> Result<
    Seq<char>,
    ErrorView,
>
    decreases names.len(),
{
    if names.len() == 0 {
        Ok(seq![])
    } else {
        match quoted_names(d, names.drop_last(), sep) {
            Err(e) => Err(e),
            Ok(before) => if !is_name(names.last()) {
                Err(bad_name(names.last()))
            } else if names.len() == 1 {
                Ok(quoted_name(d, names.last()))
            } else {
                Ok(before + sep + quoted_name(d, names.last()))
            },
        }
    }
}

proof fn lemma_names_error(d: Dialect, names: Seq<Seq<char>>, k: int, sep: Seq<char>)
    requires
        0 <= k <= names.len(),
        quoted_names(d, names.take(k), sep) is Err,
    ensures
        quoted_names(d, names, sep) == quoted_names(d, names.take(k), sep),
    decreases names.len() - k,
{
    if k < names.len() {
        assert(names.take(k + 1).drop_last() =~= names.take(k));
        lemma_names_error(d, names, k + 1, sep);
    } else {
        assert(names.take(k) =~= names);
    }
}

/// Text, or an error, as the name rules say.
pub open spec fn written(r: Result<String, EluEtlError>, s: Result<Seq<char>, ErrorView>) -> bool {
    match r {
        Ok(t) => s == Ok::<Seq<char>, ErrorView>(t@),
        Err(e) => s == Err::<Seq<char>, ErrorView>(e@),
    }
}

fn quote_names(d: Dialect, names: &Vec<String>, sep: &str) -> (r: Result<String, EluEtlError>)
    ensures
        written(r, quoted_names(d, text::views(names@), sep@)),
{
    let ghost all = text::views(names@);
    let mut s: String = String::new();
    let mut i: usize = 0;
    assert(s@ =~= seq![]);
    while i < names.len()
        invariant
            i <= names@.len(),
            all == text::views(names@),
            quoted_names(d, all.take(i as int), sep@) == Ok::<Seq<char>, ErrorView>(s@),
        decreases names@.len() - i,
    {
        proof {
            assert(all.take(i + 1).drop_last() =~= all.take(i as int));
        }
        if let Err(e) = validate_ident(names[i].as_str()) {
            proof {
                lemma_names_error(d, all, i + 1, sep@);
            }
            return Err(e);
        }
        let q: String = quote_name(d, names[i].as_str());
        if i > 0 {
            s.append(sep);
        }
        s.append(q.as_str());
        proof {
            if i == 0 {
                assert(s@ =~= q@);
            }
        }
        i += 1;
    }
    assert(all.take(i as int) =~= all);
    Ok(s)
}

/// A table name, each part between dots in quotes.
pub open spec fn quoted_table(d: Dialect, table: Seq<char>) -> Result<Seq<char>, ErrorView> {
    quoted_names(d, dot_pieces(table), "."@)
}

/// Column names in quotes, separated by commas.
pub open spec fn quoted_columns(d: Dialect, columns: Seq<Seq<char>>) -> Result<
    Seq<char>,
    ErrorView,
> {
    quoted_names(d, columns, ", "@)
}

/// Quotes a table name part by part.
pub fn quote_table(d: Dialect, table: &str) -> (r: Result<String, EluEtlError>)
    ensures
        written(r, quoted_table(d, table@)),
{
    let pieces: Vec<String> = split_dots(table);
    quote_names(d, &pieces, ".")
}

/// Quotes column names.
pub fn quote_columns(d: Dialect, columns: &Vec<String>) -> (r: Result<String, EluEtlError>)
    ensures
        written(r, quoted_columns(d, text::views(columns@))),
{
    quote_names(d, columns, ", ")
}

/// A table name with any character outside the ordinary ones is refused.
pub proof fn law_bad_table_refused(d: Dialect, table: Seq<char>, i: int)
    requires
        0 <= i < dot_pieces(table).len(),
        !is_name(dot_pieces(table)[i]),
    ensures
        quoted_table(d, table) is Err,
{
    lemma_bad_piece(d, dot_pieces(table), i, "."@);
}

proof fn lemma_bad_piece(d: Dialect, names: Seq<Seq<char>>, i: int, sep: Seq<char>)
    requires
        0 <= i < names.len(),
        !is_name(names[i]),
    ensures
        quoted_names(d, names, sep) is Err,
    decreases names.len(),
{
    if i < names.len() - 1 {
        lemma_bad_piece(d, names.drop_last(), i, sep);
    }
}

/// The last part of a table name, and the one before it as its schema.
pub fn split_table(table: &str) -> (r: (Option<String>, String))
    ensures
        ({
            let p = dot_pieces(table@);
            &&& r.1@ == p.last()
            &&& text::opt_view(r.0) == (if p.len() > 1 {
                Some(p[p.len() - 2])
            } else {
                None
            })
        }),
{
    let pieces: Vec<String> = split_dots(table);
    let n: usize = pieces.len();
    let ghost p = text::views(pieces@);
    assert(p.last() == pieces@.last()@);
    let name: String = pieces[n - 1].clone();
    if n > 1 {
        (Some(pieces[n - 2].clone()), name)
    } else {
        (None, name)
    }
}

/// The parameter of a statement with number `n`, counted from one.
pub open spec fn placeholder(d: Dialect, n: nat) -> Seq<char> {
    match d {
        Dialect::Mssql => "@P"@ + text::nat_text(n),
        Dialect::Postgres => "$"@ + text::nat_text(n),
        _ => "?"@,
    }
}

fn placeholder_text(d: Dialect, n: u128) -> (r: String)
    ensures
        r@ == placeholder(d, n as nat),
{
    match d {
        Dialect::Mssql => text::cat("@P", text::u128_text(n).as_str()),
        Dialect::Postgres => text::cat("$", text::u128_text(n).as_str()),
        _ => "?".to_string(),
    }
}

/// `column = parameter` for each column, the parameters numbered from `start` on.
pub open spec fn equalities_text(d: Dialect, columns: Seq<Seq<char>>, start: nat, sep: Seq<char>) -> Result<
    Seq<char>,
    ErrorView,
>
    decreases columns.len(),
{
    if columns.len() == 0 {
        Ok(seq![])
    } else {
        match equalities_text(d, columns.drop_last(), start, sep) {
            Err(e) => Err(e),
            Ok(before) => if !is_name(columns.last()) {
                Err(bad_name(columns.last()))
            } else {
                Ok(
                    before + (if columns.len() == 1 {
                        seq![]
                    } else {
                        sep
                    }) + quoted_name(d, columns.last()) + " = "@ + placeholder(
                        d,
                        (start + columns.len() - 1) as nat,
                    ),
                )
            },
        }
    }
}

proof fn lemma_equalities_error(
    d: Dialect,
    columns: Seq<Seq<char>>,
    k: int,
    start: nat,
    sep: Seq<char>,
)
    requires
        0 <= k <= columns.len(),
        equalities_text(d, columns.take(k), start, sep) is Err,
    ensures
        equalities_text(d, columns, start, sep) == equalities_text(d, columns.take(k), start, sep),
    decreases columns.len() - k,
{
    if k < columns.len() {
        assert(columns.take(k + 1).drop_last() =~= columns.take(k));
        lemma_equalities_error(d, columns, k + 1, start, sep);
    } else {
        assert(columns.take(k) =~= columns);
    }
}

/// `column = parameter` for each column, and the number of the next parameter.
pub fn equality_clause(d: Dialect, columns: &Vec<String>, start: u128, sep: &str) -> (r: Result<
    (String, u128),
    EluEtlError,
>)
    requires
        start + columns@.len() <= u128::MAX,
    ensures
        match r {
            Ok((s, next)) => next == start + columns@.len() && equalities_text(
                d,
                text::views(columns@),
                start as nat,
                sep@,
            ) == Ok::<Seq<char>, ErrorView>(s@),
            Err(e) => equalities_text(d, text::views(columns@), start as nat, sep@) == Err::<
                Seq<char>,
                ErrorView,
            >(e@),
        },
{
    let ghost all = text::views(columns@);
    let mut s: String = String::new();
    let mut i: usize = 0;
    assert(s@ =~= seq![]);
    while i < columns.len()
        invariant
            i <= columns@.len(),
            start + columns@.len() <= u128::MAX,
            all == text::views(columns@),
            equalities_text(d, all.take(i as int), start as nat, sep@) == Ok::<
                Seq<char>,
                ErrorView,
            >(s@),
        decreases columns@.len() - i,
    {
        let ghost before = s@;
        proof {
            assert(all.take(i + 1).drop_last() =~= all.take(i as int));
        }
        if let Err(e) = validate_ident(columns[i].as_str()) {
            proof {
                lemma_equalities_error(d, all, i + 1, start as nat, sep@);
            }
            return Err(e);
        }
        let q: String = quote_name(d, columns[i].as_str());
        let p: String = placeholder_text(d, start + i as u128);
        if i > 0 {
            s.append(sep);
        } else {
            assert(before + Seq::<char>::empty() =~= before);
        }
        s.append(q.as_str());
        s.append(" = ");
        s.append(p.as_str());
        i += 1;
    }
    assert(all.take(i as int) =~= all);
    Ok((s, start + columns.len() as u128))
}

/// How many rows one INSERT takes: as many as the parameter limit allows, at
/// least one and at most a thousand.
pub open spec fn insert_rows(columns: nat, limit: nat) -> nat {
    let n = limit / (if columns == 0 {
        1
    } else {
        columns
    });
    if n < 1 {
        1
    } else if n > 1000 {
        1000
    } else {
        n
    }
}

/// How many rows one INSERT takes.
pub fn rows_per_statement(columns: usize, limit: usize) -> (r: usize)
    ensures
        r == insert_rows(columns as nat, limit as nat),
{
    let n: usize = limit / (if columns == 0 { 1 } else { columns });
    if n < 1 {
        1
    } else if n > 1000 {
        1000
    } else {
        n
    }
}

/// `(p,p,…)`, its parameters numbered from `first` on.
pub open spec fn row_params(d: Dialect, columns: nat, first: nat) -> Seq<char> {
    seq!['('] + text::join_seq(
        Seq::new(columns, |i: int| placeholder(d, (first + i) as nat)),
        seq![','],
    ) + seq![')']
}

/// The parameters of an INSERT of some rows.
pub open spec fn insert_params(d: Dialect, rows: nat, columns: nat) -> Seq<char> {
    text::join_seq(
        Seq::new(rows, |i: int| row_params(d, columns, (i * columns + 1) as nat)),
        seq![','],
    )
}

/// The parameters of an INSERT of some rows.
pub fn placeholders(d: Dialect, rows: usize, columns: usize) -> (r: String)
    requires
        rows * columns < usize::MAX,
    ensures
        r@ == insert_params(d, rows as nat, columns as nat),
{
    let mut lines: Vec<String> = Vec::new();
    let mut i: usize = 0;
    let mut first: usize = 1;
    proof {
        reveal_strlit(",");
        assert(","@ =~= seq![',']);
    }
    while i < rows
        invariant
            i <= rows,
            rows * columns < usize::MAX,
            first == i * columns + 1,
            lines@.len() == i,
            ","@ == seq![','],
            forall|j: int|
                0 <= j < i ==> #[trigger] lines@[j]@ == row_params(
                    d,
                    columns as nat,
                    (j * columns + 1) as nat,
                ),
        decreases rows - i,
    {
        proof {
            assert((i + 1) * columns <= rows * columns) by (nonlinear_arith)
                requires
                    i + 1 <= rows,
                    columns >= 0,
            ;
            assert((i + 1) * columns == i * columns + columns) by (nonlinear_arith);
        }
        let mut params: Vec<String> = Vec::new();
        let mut c: usize = 0;
        while c < columns
            invariant
                c <= columns,
                first + columns <= usize::MAX,
                params@.len() == c,
                forall|j: int|
                    0 <= j < c ==> #[trigger] params@[j]@ == placeholder(d, (first + j) as nat),
            decreases columns - c,
        {
            params.push(placeholder_text(d, (first + c) as u128));
            c += 1;
        }
        let mut line: String = String::new();
        line.push('(');
        let body: String = text::join(&params, ",");
        line.append(body.as_str());
        line.push(')');
        proof {
            assert(text::views(params@) =~= Seq::new(
                columns as nat,
                |j: int| placeholder(d, (first + j) as nat),
            ));
            assert(line@ =~= row_params(d, columns as nat, first as nat));
        }
        lines.push(line);
        first += columns;
        i += 1;
    }
    proof {
        assert(text::views(lines@) =~= Seq::new(
            rows as nat,
            |j: int| row_params(d, columns as nat, (j * columns + 1) as nat),
        ));
    }
    text::join(&lines, ",")
}

/// Names in quotes are the quoted names with the separator between neighbours, and
/// they are refused exactly where one of them is bad.
pub proof fn law_names_are_quoted_one_by_one(d: Dialect, names: Seq<Seq<char>>, sep: Seq<char>)
    ensures
        quoted_names(d, names, sep) is Ok <==> forall|i: int|
            0 <= i < names.len() ==> is_name(#[trigger] names[i]),
        quoted_names(d, names, sep) matches Ok(s) ==> s == text::join_seq(
            Seq::new(names.len(), |i: int| quoted_name(d, names[i])),
            sep,
        ),
    decreases names.len(),
{
    if names.len() > 0 {
        let front = names.drop_last();
        law_names_are_quoted_one_by_one(d, front, sep);
        let all = Seq::new(names.len(), |i: int| quoted_name(d, names[i]));
        assert(all.drop_last() =~= Seq::new(front.len(), |i: int| quoted_name(d, front[i])));
        assert(names[names.len() - 1] == names.last());
        assert forall|i: int| 0 <= i < front.len() implies front[i] == names[i] by {}
        if quoted_names(d, names, sep) is Ok {
            assert forall|i: int| 0 <= i < names.len() implies is_name(#[trigger] names[i]) by {
                if i < front.len() {
                    assert(is_name(front[i]));
                }
            }
        }
        if forall|i: int| 0 <= i < names.len() ==> is_name(#[trigger] names[i]) {
            assert forall|i: int| 0 <= i < front.len() implies is_name(#[trigger] front[i]) by {
                assert(front[i] == names[i]);
            }
        }
    }
}

/// One column and its parameter.
pub open spec fn equality(d: Dialect, column: Seq<char>, n: nat) -> Seq<char> {
    quoted_name(d, column) + " = "@ + placeholder(d, n)
}

/// Equalities are one `column = parameter` for each column, the separator between
/// neighbours and the parameters numbered in the order of the columns; they are
/// refused exactly where a column is bad.
pub proof fn law_equalities_stand_one_by_one(
    d: Dialect,
    columns: Seq<Seq<char>>,
    start: nat,
    sep: Seq<char>,
)
    ensures
        equalities_text(d, columns, start, sep) is Ok <==> forall|i: int|
            0 <= i < columns.len() ==> is_name(#[trigger] columns[i]),
        equalities_text(d, columns, start, sep) matches Ok(s) ==> s == text::join_seq(
            Seq::new(columns.len(), |i: int| equality(d, columns[i], (start + i) as nat)),
            sep,
        ),
    decreases columns.len(),
{
    if columns.len() > 0 {
        let front = columns.drop_last();
        law_equalities_stand_one_by_one(d, front, start, sep);
        let all = Seq::new(columns.len(), |i: int| equality(d, columns[i], (start + i) as nat));
        assert(all.drop_last() =~= Seq::new(
            front.len(),
            |i: int| equality(d, front[i], (start + i) as nat),
        ));
        assert(columns[columns.len() - 1] == columns.last());
        assert forall|i: int| 0 <= i < front.len() implies front[i] == columns[i] by {}
        if let Ok(s) = equalities_text(d, columns, start, sep) {
            assert forall|i: int| 0 <= i < columns.len() implies is_name(
                #[trigger] columns[i],
            ) by {
                if i < front.len() {
                    assert(is_name(front[i]));
                }
            }
            let before = equalities_text(d, front, start, sep)->Ok_0;
            if columns.len() == 1 {
                assert(s =~= all[0]);
            } else {
                assert(s =~= before + sep + all.last());
            }
        }
        if forall|i: int| 0 <= i < columns.len() ==> is_name(#[trigger] columns[i]) {
            assert forall|i: int| 0 <= i < front.len() implies is_name(#[trigger] front[i]) by {
                assert(front[i] == columns[i]);
            }
        }
    } else {
        assert(text::join_seq(
            Seq::new(columns.len(), |i: int| equality(d, columns[i], (start + i) as nat)),
            sep,
        ) =~= seq![]);
    }
}

/// A quoted name is the name between two quotes, and a name that is allowed holds
/// neither of them, so the quotes end where the name does: the quoted text tells
/// the name.
pub proof fn law_names_stay_in_their_quotes(d: Dialect, s: Seq<char>)
    ensures
        quoted_name(d, s).len() == s.len() + 2,
        quoted_name(d, s).subrange(1, s.len() as int + 1) == s,
        match d {
            Dialect::Mssql => quoted_name(d, s)[0] == '[' && quoted_name(d, s).last() == ']',
            Dialect::MySql => quoted_name(d, s)[0] == '`' && quoted_name(d, s).last() == '`',
            _ => quoted_name(d, s)[0] == '"' && quoted_name(d, s).last() == '"',
        },
        is_name(s) ==> forall|i: int|
            0 <= i < s.len() ==> s[i] != quoted_name(d, s)[0] && #[trigger] s[i] != quoted_name(
                d,
                s,
            ).last() && s[i] != '\'' && s[i] != ';' && s[i] != '.' && s[i] != '\\' && s[i] != '?',
{
    assert(quoted_name(d, s).subrange(1, s.len() as int + 1) =~= s);
    if is_name(s) {
        assert forall|i: int| 0 <= i < s.len() implies is_name_char(#[trigger] s[i]) by {}
    }
}

/// The parts of a table name with a dot between neighbours are the name again, and
/// no part holds a dot.
pub proof fn law_dots_part_a_name(s: Seq<char>)
    ensures
        text::join_seq(dot_pieces(s), seq!['.']) == s,
        dot_pieces(s).len() > 0,
        forall|i: int| 0 <= i < dot_pieces(s).len() ==> !(#[trigger] dot_pieces(s)[i]).contains('.'),
    decreases s.len(),
{
    let p = dot_pieces(s);
    if s.len() > 0 {
        law_dots_part_a_name(s.drop_last());
        let before = dot_pieces(s.drop_last());
        if s.last() == '.' {
            assert(p.drop_last() =~= before);
            assert(text::join_seq(p, seq!['.']) =~= s.drop_last().push('.'));
        } else {
            assert(p.drop_last() =~= before.drop_last());
            let tail = before.last();
            assert(before[before.len() - 1] == tail);
            assert forall|i: int| 0 <= i < p.len() implies !(#[trigger] p[i]).contains('.') by {
                if i == p.len() - 1 {
                    if p[i].contains('.') {
                        let k = choose|k: int| 0 <= k < p[i].len() && p[i][k] == '.';
                        assert(tail[k] == '.');
                    }
                } else {
                    assert(p[i] == before[i]);
                }
            }
            assert(text::join_seq(p, seq!['.']) =~= text::join_seq(before, seq!['.']).push(
                s.last(),
            ));
        }
        assert(s =~= s.drop_last().push(s.last()));
    } else {
        assert(text::join_seq(p, seq!['.']) =~= s);
    }
}

/// Where parameters are numbered, each number has a parameter of its own; elsewhere
/// every parameter is a `?`.
pub proof fn law_parameters_are_told_apart(d: Dialect, m: nat, n: nat)
    ensures
        d is Mssql || d is Postgres ==> (placeholder(d, m) == placeholder(d, n) <==> m == n),
        !(d is Mssql || d is Postgres) ==> placeholder(d, n) == seq!['?'],
        d is Mssql ==> placeholder(d, n).take(2) == seq!['@', 'P'] && placeholder(d, n).skip(2)
            == text::nat_text(n),
        d is Postgres ==> placeholder(d, n).take(1) == seq!['$'] && placeholder(d, n).skip(1)
            == text::nat_text(n),
{
    reveal_strlit("@P");
    reveal_strlit("$");
    reveal_strlit("?");
    assert("?"@ =~= seq!['?']);
    lemma_nat_text(m);
    lemma_nat_text(n);
    assert(("@P"@ + text::nat_text(m)).skip(2) =~= text::nat_text(m));
    assert(("@P"@ + text::nat_text(n)).skip(2) =~= text::nat_text(n));
    assert(("$"@ + text::nat_text(m)).skip(1) =~= text::nat_text(m));
    assert(("$"@ + text::nat_text(n)).skip(1) =~= text::nat_text(n));
    assert(("@P"@ + text::nat_text(n)).take(2) =~= seq!['@', 'P']);
    assert(("$"@ + text::nat_text(n)).take(1) =~= seq!['$']);
}

/// An INSERT takes from one to a thousand rows. Its parameters stay within the
/// limit unless a single row is over it, and no row more would fit.
pub proof fn law_statements_keep_the_limit(columns: nat, limit: nat)
    ensures
        1 <= insert_rows(columns, limit) <= 1000,
        insert_rows(columns, limit) > 1 ==> insert_rows(columns, limit) * columns <= limit,
        columns <= limit ==> insert_rows(columns, limit) * columns <= limit,
        columns > 0 && insert_rows(columns, limit) < 1000 ==> (insert_rows(columns, limit) + 1)
            * columns > limit,
{
    let n = insert_rows(columns, limit);
    if columns > 0 {
        let q = limit / columns;
        assert(q * columns <= limit < (q + 1) * columns) by (nonlinear_arith)
            requires
                columns > 0,
                q == limit / columns,
        ;
        assert(n <= q ==> n * columns <= q * columns) by (nonlinear_arith)
            requires
                columns > 0,
        ;
        if n > q {
            assert(q == 0);
            assert((n + 1) * columns == 2 * columns) by (nonlinear_arith)
                requires
                    n == 1,
            ;
            assert(columns > limit) by (nonlinear_arith)
                requires
                    limit < (q + 1) * columns,
                    q == 0,
            ;
        }
    } else {
        assert(n * columns == 0) by (nonlinear_arith)
            requires
                columns == 0,
        ;
    }
}

/// The rows of an INSERT take their parameters one after the other: one row more
/// goes on with the number behind the last, and within a row each column does.
pub proof fn law_insert_parameters_go_on(d: Dialect, rows: nat, columns: nat, first: nat)
    ensures
        rows > 0 ==> insert_params(d, rows + 1, columns) == insert_params(d, rows, columns) + seq![
            ',',
        ] + row_params(d, columns, rows * columns + 1),
        insert_params(d, 1, columns) == row_params(d, columns, 1),
        row_params(d, 1, first) == seq!['('] + placeholder(d, first) + seq![')'],
        columns > 0 ==> row_params(d, columns + 1, first) == row_params(
            d,
            columns,
            first,
        ).drop_last() + seq![','] + placeholder(d, first + columns) + seq![')'],
{
    let lines = Seq::new(rows + 1, |i: int| row_params(d, columns, (i * columns + 1) as nat));
    assert(lines.drop_last() =~= Seq::new(
        rows,
        |i: int| row_params(d, columns, (i * columns + 1) as nat),
    ));
    let one = Seq::new(1nat, |i: int| row_params(d, columns, (i * columns + 1) as nat));
    assert(0 * columns == 0) by (nonlinear_arith);
    assert(one[0] == row_params(d, columns, 1));
    let single = Seq::new(1nat, |i: int| placeholder(d, (first + i) as nat));
    assert(single[0] == placeholder(d, first));
    let params = Seq::new(columns + 1, |i: int| placeholder(d, (first + i) as nat));
    assert(params.drop_last() =~= Seq::new(
        columns,
        |i: int| placeholder(d, (first + i) as nat),
    ));
    if columns > 0 {
        let body = text::join_seq(params.drop_last(), seq![',']);
        assert(row_params(d, columns, first).drop_last() =~= seq!['('] + body);
        assert(row_params(d, columns + 1, first) =~= seq!['('] + body + seq![','] + placeholder(
            d,
            first + columns,
        ) + seq![')']);
    }
}

} // verus!
