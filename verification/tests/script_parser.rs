use elu_etl::double::Real;
use elu_etl::etl::script::ast::{CmpOp, ColRef, Condition, Expr, GenKind};
use elu_etl::etl::script::clauses::{
    Action, ConnRef, JoinPolicy, Script, ScriptIssue, SourceDecl,
};
use elu_etl::etl::script::job_parser;
use elu_etl::etl::script::model::{parse_etl_script, ColRefModel, ExprModel, SourceModel};

fn read(s: String) -> Option<Real> {
    let v: f64 = s.parse().ok()?;
    Some(Real { bits: v.to_bits(), text: v.to_string(), json: v.to_string() })
}

fn parse(input: &str) -> Result<Script, ScriptIssue> {
    job_parser::parse(input, &read)
}

fn col(e: &Expr) -> &ColRef {
    match e {
        Expr::Col(r) => r,
        _ => panic!("expected a column, got {e:?}"),
    }
}

fn where_of(src: &str) -> Condition {
    parse(src).unwrap().works[0].where_.clone().unwrap()
}

#[test]
fn parses_new_lookup_join_work() {
    let script = parse(
        r#"
WORK 'bind' {
  FROM entra   = SOURCE.[users]
  JOIN account = TARGET.[dbo].[DirectoryAccounts]
    ON (entra.[userPrincipalName] == account.[Email])
  INTO TARGET.[dbo].[ExternalIdentityMappings]
  ADD {
     [Id]                 = Gen.ULID
    ,[AccountId]          = account.[Id]
    ,[ExternalId]         = entra.[id]
    ,[ExternalSystemType] = N'MICROSOFT_ENTRA_ID'
    ,[Label]              = N'MICROSOFT_ENTRA_ID: {account.[DisplayName]}'
  }
}
GO
"#,
    )
    .unwrap();
    assert_eq!(script.works.len(), 1);
    let w = &script.works[0];
    assert_eq!(w.name.as_deref(), Some("bind"));
    assert_eq!(w.from.alias, "entra");
    assert_eq!(w.from.conn, ConnRef::Source);
    assert_eq!(w.from.table, vec!["users"]);
    assert_eq!(w.joins.len(), 1);
    let j = &w.joins[0];
    assert_eq!(j.binding.alias, "account");
    assert_eq!(j.binding.conn, ConnRef::Target);
    assert_eq!(j.policy, JoinPolicy::Inner);
    let jon = j.on.as_eq_conjunction().unwrap();
    assert_eq!(jon.len(), 1);
    assert_eq!(col(&jon[0].left).alias, "entra");
    assert_eq!(col(&jon[0].right).alias, "account");
    assert_eq!(w.into.table, vec!["dbo", "ExternalIdentityMappings"]);
    assert!(w.merge.is_none());
    let Some(Action::Add(a)) = &w.action else {
        panic!("expected ADD");
    };
    assert_eq!(a.len(), 5);
    assert_eq!(a[0].value, Expr::Gen(GenKind::Ulid));
    assert_eq!(col(&a[1].value).alias, "account");
    assert_eq!(col(&a[2].value).alias, "entra");
    let Expr::Concat(parts) = &a[4].value else {
        panic!("expected a template");
    };
    assert!(
        matches!(&parts[1], Expr::Col(r) if r.alias == "account" && r.column == "DisplayName")
    );
}

#[test]
fn parses_merge_upsert_work() {
    let script = parse(
        r#"
WORK 'ldap' {
  FROM  account = SOURCE.[dbo].[DirectoryAccounts]
  WHERE account.[LdapId] IS NOT EMPTY
  INTO  mapping = TARGET.[dbo].[ExternalIdentityMappings]
  ON ( mapping.[ExternalSystemType] == N'LDAP' &&
       mapping.[ExternalId]         == account.[LdapId] )
  NOT MATCHED {
    ADD {
       [Id]                 = Gen.ULID
      ,[AccountId]          = account.[Id]
      ,[ExternalSystemType] = N'LDAP'
    }
  }
}
"#,
    )
    .unwrap();
    let w = &script.works[0];
    assert_eq!(w.from.alias, "account");
    assert!(w.joins.is_empty());
    let where_ = w.where_.as_ref().unwrap();
    let Condition::IsEmpty(e) = where_ else {
        panic!("expected IS NOT EMPTY");
    };
    assert!(e.negated);
    assert_eq!(col(&e.expr).alias, "account");
    assert_eq!(w.into.alias.as_deref(), Some("mapping"));
    let merge = w.merge.as_ref().unwrap();
    let mon = merge.on.as_eq_conjunction().unwrap();
    assert_eq!(mon.len(), 2);
    assert_eq!(col(&mon[0].left).alias, "mapping");
    assert!(matches!(&mon[0].right, Expr::Text(t) if t == "LDAP"));
    assert_eq!(col(&mon[1].right).alias, "account");
    assert!(matches!(merge.not_matched, Some(Action::Add(_))));
    assert!(merge.matched.is_none());
    assert!(w.action.is_none());
}

#[test]
fn legacy_if_add_normalizes_to_new_ast() {
    let script = parse(
        r#"
If [FILENAME].[SHEET1].email == [EluAdminCenter].[dbo].[Account].email
[EluAdminCenter].[dbo].[ExternalIdentityMappings] ADD
{
 AccountId = [EluAdminCenter].[dbo].[Account].Id
,ExternalId = [FILENAME].[SHEET1].Id
,ExternalSystemType = N'MICROSOFT_ENTRA_ID'
}
GO
"#,
    )
    .unwrap();
    let w = &script.works[0];
    assert_eq!(w.from.alias, "sheet1");
    assert_eq!(w.from.conn, ConnRef::Source);
    assert_eq!(w.from.table, vec!["FILENAME", "SHEET1"]);
    assert_eq!(w.joins.len(), 1);
    let j = &w.joins[0];
    assert_eq!(j.binding.alias, "account");
    assert_eq!(j.binding.conn, ConnRef::Target);
    assert_eq!(j.binding.table, vec!["EluAdminCenter", "dbo", "Account"]);
    let jon = j.on.as_eq_conjunction().unwrap();
    assert_eq!(col(&jon[0].left).alias, "sheet1");
    assert_eq!(col(&jon[0].left).column, "email");
    assert_eq!(col(&jon[0].right).alias, "account");
    assert_eq!(w.into.table, vec!["EluAdminCenter", "dbo", "ExternalIdentityMappings"]);
    let Some(Action::Add(a)) = &w.action else {
        panic!("expected ADD");
    };
    assert_eq!(col(&a[0].value).alias, "account");
    assert_eq!(col(&a[1].value).alias, "sheet1");
    assert!(matches!(&a[2].value, Expr::Text(t) if t == "MICROSOFT_ENTRA_ID"));
}

#[test]
fn legacy_bare_add_normalizes_to_source_from() {
    let script =
        parse("[users] ADD { name = [f].[s].name, age = 18, ok = TRUE, note = NULL }").unwrap();
    let w = &script.works[0];
    assert!(w.joins.is_empty());
    assert_eq!(w.into.table, vec!["users"]);
    let Some(Action::Add(a)) = &w.action else {
        panic!("expected ADD");
    };
    assert_eq!(col(&a[0].value).alias, w.from.alias);
    assert_eq!(col(&a[0].value).column, "name");
    assert!(matches!(a[1].value, Expr::Int(18)));
    assert!(matches!(a[2].value, Expr::Bool(true)));
    assert!(matches!(a[3].value, Expr::Null));
}

#[test]
fn left_join_policy_parsed() {
    let script = parse(
        "WORK 'x' { FROM a = SOURCE.[t] LEFT JOIN b = TARGET.[dbo].[T] ON (a.[k] == b.[k]) INTO TARGET.[dbo].[Dst] ADD { [c] = b.[v] } }",
    )
    .unwrap();
    assert_eq!(script.works[0].joins[0].policy, JoinPolicy::Left);
}

#[test]
fn multiple_works_and_go() {
    let script = parse(
        "WORK 'a' { FROM x = SOURCE.[t] INTO TARGET.[d] ADD { [c] = x.[v] } }\nGO\n[u] ADD { y = 2 }\nGO",
    )
    .unwrap();
    assert_eq!(script.works.len(), 2);
    assert_eq!(script.works[0].name.as_deref(), Some("a"));
    assert_eq!(script.works[1].name, None);
}

#[test]
fn unknown_alias_is_error() {
    let e = parse("WORK 'x' { FROM a = SOURCE.[t] INTO TARGET.[d] ADD { [c] = zzz.[v] } }")
        .unwrap_err();
    assert!(e.message.contains("未知別名"));
}

#[test]
fn parses_or_not_in_like_between() {
    let pre = "WORK 'x' { FROM a = SOURCE.[t] WHERE ";
    let post = " INTO TARGET.[d] ADD { [c] = a.[v] } }";

    assert!(matches!(
        where_of(&format!("{pre}a.[c] == 1 || a.[c] == 2{post}")),
        Condition::Or(_)
    ));
    assert!(matches!(where_of(&format!("{pre}!(a.[c] == 1){post}")), Condition::Not(_)));
    assert!(matches!(
        where_of(&format!("{pre}a.[c] IN (1, 2, 3){post}")),
        Condition::In { negated: false, .. }
    ));
    assert!(matches!(
        where_of(&format!("{pre}a.[c] NOT IN (1, 2){post}")),
        Condition::In { negated: true, .. }
    ));
    assert!(matches!(
        where_of(&format!("{pre}a.[name] LIKE N'%x%'{post}")),
        Condition::Like { negated: false, .. }
    ));
    assert!(matches!(
        where_of(&format!("{pre}a.[n] BETWEEN 1 AND 10{post}")),
        Condition::Between { negated: false, .. }
    ));

    let c = where_of(&format!("{pre}a.[x] == 1 && a.[y] == 2 || a.[z] == 3{post}"));
    let Condition::Or(terms) = &c else { panic!("expected Or") };
    assert_eq!(terms.len(), 2);
    assert!(matches!(&terms[0], Condition::And(v) if v.len() == 2));

    assert!(where_of(&format!("{pre}a.[c] == 1 || a.[c] == 2{post}"))
        .as_eq_conjunction()
        .is_none());
}

#[test]
fn condition_to_dsl_roundtrips() {
    let pre = "WORK 'x' { FROM a = SOURCE.[t] WHERE ";
    let post = " INTO TARGET.[d] ADD { [c] = a.[v] } }";
    for cond in [
        "a.[x] == 1 && a.[y] != 2",
        "a.[x] == 1 || a.[y] == 2",
        "(a.[x] == 1 || a.[y] == 2) && a.[z] >= 3",
        "!(a.[x] == 1)",
        "a.[c] NOT IN (1, 2, 3)",
        "a.[name] LIKE N'%x%'",
        "a.[n] BETWEEN 1 AND 10",
    ] {
        let c1 = where_of(&format!("{pre}{cond}{post}"));
        let dsl = c1.to_dsl();
        let c2 = where_of(&format!("{pre}{dsl}{post}"));
        assert_eq!(c1, c2, "{cond} was written as {dsl}");
    }
}

#[test]
fn parses_matched_update_and_delete() {
    let s = parse(
        r#"WORK 'm' {
                FROM a = SOURCE.[t]
                INTO mapping = TARGET.[dbo].[Dst]
                ON ( mapping.[k] == a.[k] )
                MATCHED { UPDATE { [v] = a.[v] } }
                NOT MATCHED { ADD { [k] = a.[k], [v] = a.[v] } }
            }"#,
    )
    .unwrap();
    let m = s.works[0].merge.as_ref().unwrap();
    assert!(matches!(m.matched, Some(Action::Update(_))));
    assert!(matches!(m.not_matched, Some(Action::Add(_))));

    let s = parse(
        "WORK 'd' { FROM a = SOURCE.[t] INTO mapping = TARGET.[dbo].[Dst] ON ( mapping.[k] == a.[k] ) MATCHED { DELETE } }",
    )
    .unwrap();
    assert!(matches!(s.works[0].merge.as_ref().unwrap().matched, Some(Action::Delete)));
}

#[test]
fn as_alias_rejected() {
    let e = parse("WORK 'x' { FROM a = SOURCE.[t] INTO TARGET.[d] AS m ADD { [c] = a.[v] } }")
        .unwrap_err();
    assert!(e.message.contains("AS"));
}

#[test]
fn comparison_operators_and_is_empty() {
    let script = parse(
        "WORK 'x' { FROM a = SOURCE.[t] WHERE a.[n] >= 18 && a.[email] IS NOT EMPTY INTO TARGET.[d] ADD { [c] = a.[v] } }",
    )
    .unwrap();
    let w = script.works[0].where_.clone().unwrap();
    let Condition::And(parts) = &w else {
        panic!("expected AND");
    };
    assert_eq!(parts.len(), 2);
    assert!(matches!(&parts[0], Condition::Compare(c) if c.op == CmpOp::Ge));
    assert!(matches!(&parts[1], Condition::IsEmpty(e) if e.negated));
}

#[test]
fn template_roundtrips_alias_field() {
    let script = parse(
        "WORK 'x' { FROM a = SOURCE.[t] INTO TARGET.[d] ADD { [c] = N'L: {a.[Name]}' } }",
    )
    .unwrap();
    let Some(Action::Add(asn)) = &script.works[0].action else {
        panic!();
    };
    assert_eq!(asn[0].value.to_dsl(), "N'L: {a.[Name]}'");
}

#[test]
fn parses_header_and_db_source() {
    let script = parse(
        r#"
SOURCE = CONNECTION('EluCloud')
TARGET = CONNECTION('EluCloud')
WORK 'x' { FROM a = SOURCE.[dbo].[Accounts] INTO TARGET.[dbo].[Dst] ADD { [c] = a.[v] } }
"#,
    )
    .unwrap();
    assert!(matches!(script.header.source, Some(SourceDecl::Connection(_))));
    assert_eq!(script.header.target_connection.as_deref(), Some("EluCloud"));
    assert_eq!(script.works[0].from.table, vec!["dbo", "Accounts"]);
}

#[test]
fn empty_add_block_parses() {
    let script = parse("WORK 'A' { FROM a = SOURCE.[t] INTO TARGET.[d] ADD { } }").unwrap();
    assert!(matches!(
        script.works[0].action,
        Some(Action::Add(ref v)) if v.is_empty()
    ));
}

#[test]
fn reports_line_numbers() {
    let e = parse("[a] ADD\n{ x = }\nGO").unwrap_err();
    assert_eq!(e.line, 2);
}

#[test]
fn string_escapes_and_comments() {
    let script = parse("-- comment\n[t] ADD { a = N'it''s', b = 'x' } GO").unwrap();
    let Some(Action::Add(a)) = &script.works[0].action else {
        panic!();
    };
    assert!(matches!(&a[0].value, Expr::Text(t) if t == "it's"));
}

#[test]
fn parses_generators() {
    let script = parse(
        "WORK 'x' { FROM a = SOURCE.[t] INTO TARGET.[d] ADD { id = Gen.ULID, g = Gen.GUID(Text), d = gen.DateTime, h = Gen.SHA256 } }",
    )
    .unwrap();
    let Some(Action::Add(a)) = &script.works[0].action else {
        panic!();
    };
    assert_eq!(a[0].value, Expr::Gen(GenKind::Ulid));
    assert_eq!(a[1].value, Expr::Gen(GenKind::GuidText));
    assert_eq!(a[2].value, Expr::Gen(GenKind::DateTime));
    assert_eq!(a[3].value, Expr::Gen(GenKind::Sha256));

    let e = parse("[t] ADD { x = Gen.Foo }").unwrap_err();
    assert!(e.message.contains("未知的產生器"));
}

#[test]
fn expressions_roundtrip() {
    for text in [
        "N'it''s'",
        "42",
        "-7",
        "2.5",
        "TRUE",
        "FALSE",
        "NULL",
        "Gen.GUID(Text)",
        "a.[Name]",
        "N'{a.[x]}/{a.[y]}'",
        "N'{{literal}} {a.[x]}'",
    ] {
        let src = format!("WORK 'x' {{ FROM a = SOURCE.[t] INTO TARGET.[d] ADD {{ [c] = {text} }} }}");
        let script = parse(&src).unwrap();
        let Some(Action::Add(v)) = &script.works[0].action else {
            panic!();
        };
        assert_eq!(v[0].value.to_dsl(), text);
    }
}

#[test]
fn header_file_source_and_options() {
    let script = parse(
        "SOURCE = FILE(PATH='C:\\data.xlsx', SHEET='Sheet1', ENCODING='Big5', HEADER=FALSE)\n[t] ADD { a = 1 }",
    )
    .unwrap();
    let Some(SourceDecl::File(f)) = &script.header.source else {
        panic!("expected a file");
    };
    assert_eq!(f.path, "C:\\data.xlsx");
    assert_eq!(f.sheet.as_deref(), Some("Sheet1"));
    assert_eq!(f.encoding.as_deref(), Some("Big5"));
    assert_eq!(f.has_header, Some(false));
}

#[test]
fn empty_script_and_lexer_errors() {
    let e = parse("-- nothing\n").unwrap_err();
    assert_eq!((e.line, e.message.as_str()), (1, "腳本為空"));
    let e = parse("[t] ADD { a = 'open").unwrap_err();
    assert_eq!(e.line, 1);
    let e = parse("[t] ADD { a = N'{a' }").unwrap_err();
    assert!(e.message.contains("缺少結尾 }"));
    let e = parse("[t] ADD { a = N'a}' }").unwrap_err();
    assert!(e.message.contains("未配對"));
}

#[test]
fn scripts_are_shown_to_the_visual_editor() {
    let m = parse_etl_script(
        "SOURCE = CONNECTION('crm', TABLE='dbo.users')
TARGET = CONNECTION('admin')
WORK 'w' {
  FROM a = SOURCE.[t]
  LEFT JOIN b = TARGET.[ref] ON (a.[k] == b.[k] && a.[n] == b.[n])
  WHERE a.[x] > 1 || a.[y] IS EMPTY
  INTO m = TARGET.[dst]
  ON (m.[k] == a.[k])
  MATCHED { UPDATE { [v] = N'v{a.[v]}' } }
  NOT MATCHED { ADD { [k] = a.[k], [id] = Gen.ULID } }
}",
        &read,
    )
    .unwrap();
    assert_eq!(m.target_connection.as_deref(), Some("admin"));
    match m.source {
        Some(SourceModel::Connection { name, table, query }) => {
            assert_eq!((name.as_str(), table.as_deref(), query), ("crm", Some("dbo.users"), None));
        }
        other => panic!("unexpected {other:?}"),
    }
    let w = &m.works[0];
    assert_eq!((w.name.as_deref(), w.from.alias.as_str()), (Some("w"), "a"));
    assert_eq!(w.joins[0].policy, JoinPolicy::Left);
    assert_eq!(
        w.joins[0].on.rows,
        Some(vec!["a.[k] == b.[k]".to_string(), "a.[n] == b.[n]".to_string()])
    );
    let filter = w.where_.as_ref().unwrap();
    assert_eq!(filter.rows, None);
    assert_eq!(filter.text, "a.[x] > 1 || a.[y] IS EMPTY");
    let merge = w.merge.as_ref().unwrap();
    let matched = merge.matched.as_ref().unwrap();
    assert_eq!(matched.keyword, "UPDATE");
    assert_eq!(matched.assignments[0].value, ExprModel::Concat("N'v{a.[v]}'".to_string()));
    let added = merge.not_matched.as_ref().unwrap();
    assert_eq!(
        added.assignments[0].value,
        ExprModel::Col(ColRefModel { prefix: vec!["a".to_string()], column: "k".to_string() })
    );
    assert_eq!(added.assignments[1].value, ExprModel::Gen("ULID".to_string()));
    let e = parse_etl_script("WORK", &read).unwrap_err();
    assert!(e.message().contains("第 1 行"));
}

#[test]
fn braces_in_a_text_are_written_doubled() {
    let e = Expr::Text("{x}".to_string());
    assert_eq!(e.to_dsl(), "N'{{x}}'");
    let src = format!(
        "WORK 'x' {{ FROM a = SOURCE.[t] INTO TARGET.[d] ADD {{ [c] = {} }} }}",
        e.to_dsl()
    );
    let script = parse(&src).unwrap();
    let Some(Action::Add(v)) = &script.works[0].action else {
        panic!();
    };
    assert_eq!(v[0].value, e);
    let where_text = Expr::Text("it's a }{".to_string()).to_dsl();
    assert_eq!(where_text, "N'it''s a }}{{'");
    let c = where_of(&format!(
        "WORK 'x' {{ FROM a = SOURCE.[t] WHERE a.[v] == {where_text} INTO TARGET.[d] ADD {{ [c] = 1 }} }}"
    ));
    assert!(matches!(c, Condition::Compare(x) if x.right == Expr::Text("it's a }{".to_string())));
}

#[test]
fn an_error_in_a_hole_has_the_line_of_its_text() {
    let e = parse("WORK 'x' {\n FROM a = SOURCE.[t] INTO TARGET.[d]\n ADD {\n [c] = N'{zzz.[v]}' } }")
        .unwrap_err();
    assert!(e.message.contains("未知別名"));
    assert_eq!(e.line, 4);
    let script =
        parse("WORK 'x' {\n FROM a = SOURCE.[t] INTO TARGET.[d]\n ADD { [c] = N'{a.[v]}' } }").unwrap();
    let Some(Action::Add(v)) = &script.works[0].action else {
        panic!();
    };
    assert_eq!(v[0].value.col_refs()[0].line, 3);
}
