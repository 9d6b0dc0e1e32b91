//! The extended permission grammar and its SQL-predicate compiler.
//!
//! A permission string such as
//! `READ(equipment[1],person[7])|WRITE(*)|CREATE(true)` is normalized,
//! split into clauses, and parsed into a [`Permissions`] value; a parsed
//! read permission is compiled back into a row-filter fragment.

use vstd::prelude::*;

use crate::scopes::close_scopes;
use crate::text::find_from;
use crate::text::normalize;
use crate::text::parse_i32_spec;
use crate::text::split_on;

verus! {

/// What a right applies to: one equipment row, one person row, or every row.
#[derive(Clone, Copy, Debug, PartialEq, Eq, Structural)]
pub enum Scope {
    Equipment(i32),
    Person(i32),
    Any,
}

/// One action's right together with its scope restriction.
#[derive(Clone, Debug, PartialEq, Eq)]
pub enum Permission {
    ReadAny,
    Read(Vec<Scope>),
    WriteAny,
    Write(Vec<Scope>),
    Create(bool),
}

/// The shape of a [`Permission`] in specifications: scope lists as sequences.
pub enum PermissionModel {
    ReadAny,
    Read(Seq<Scope>),
    WriteAny,
    Write(Seq<Scope>),
    Create(bool),
}

impl View for Permission {
    type V = PermissionModel;

    open spec fn view(&self) -> PermissionModel {
        match self {
            Permission::ReadAny => PermissionModel::ReadAny,
            Permission::Read(scopes) => PermissionModel::Read(scopes@),
            Permission::WriteAny => PermissionModel::WriteAny,
            Permission::Write(scopes) => PermissionModel::Write(scopes@),
            Permission::Create(allowed) => PermissionModel::Create(*allowed),
        }
    }
}

/// The permission bundle attached to one resource domain of a subject.
#[derive(Clone, Debug, PartialEq, Eq)]
pub enum Permissions {
    ReadWrite { read: Permission, write: Permission, create: Permission },
}

/// The shape of a [`Permissions`] value in specifications.
pub enum PermissionsModel {
    ReadWrite { read: PermissionModel, write: PermissionModel, create: PermissionModel },
}

impl View for Permissions {
    type V = PermissionsModel;

    open spec fn view(&self) -> PermissionsModel {
        match self {
            Permissions::ReadWrite { read, write, create } => PermissionsModel::ReadWrite {
                read: read@,
                write: write@,
                create: create@,
            },
        }
    }
}

/// The read permission of a bundle.
pub open spec fn read_of(p: PermissionsModel) -> PermissionModel {
    match p {
        PermissionsModel::ReadWrite { read, .. } => read,
    }
}

/// The write permission of a bundle.
pub open spec fn write_of(p: PermissionsModel) -> PermissionModel {
    match p {
        PermissionsModel::ReadWrite { write, .. } => write,
    }
}

/// The create permission of a bundle.
pub open spec fn create_of(p: PermissionsModel) -> PermissionModel {
    match p {
        PermissionsModel::ReadWrite { create, .. } => create,
    }
}

/// The ways a permission string can be rejected.
pub enum ParseError {
    MissingScope,
    MissingId,
    BadId,
    UnknownScope,
    UnknownAction,
    IncompleteSpec,
}

/// The reason string carried by each rejection.
pub open spec fn error_text(e: ParseError) -> Seq<char> {
    match e {
        ParseError::MissingScope => "Invalid permission string (No scope found)"@,
        ParseError::MissingId => "Invalid permission string (Missing id)"@,
        ParseError::BadId => "Invalid permission string (Could not parse id)"@,
        ParseError::UnknownScope => "Invalid permission string (Unrecognized scope)"@,
        ParseError::UnknownAction => "Invalid permission string (Unrecognized action)"@,
        ParseError::IncompleteSpec => "Invalid permission string (No action/scope found)"@,
    }
}

/// Parser accumulator: the scopes collected so far and the create flag.
pub struct ScopeAcc {
    pub read: Seq<Scope>,
    pub write: Seq<Scope>,
    pub create: Option<bool>,
}

/// One scope item (such as `EQUIPMENT[7]`) applied to the accumulator under
/// the clause's action keyword.
pub open spec fn item_step(acc: ScopeAcc, action: Seq<char>, item: Seq<char>) -> Result<
    ScopeAcc,
    ParseError,
> {
    match find_from(item, '[', 0) {
        None => Err(ParseError::MissingId),
        Some(ob) => match find_from(item, ']', ob + 1) {
            None => Err(ParseError::MissingId),
            Some(cb) => match parse_i32_spec(item.subrange(ob + 1, cb)) {
                None => Err(ParseError::BadId),
                Some(id) => {
                    let tag = item.take(ob);
                    if tag == "EQUIPMENT"@ {
                        if action == "READ"@ {
                            Ok(
                                ScopeAcc {
                                    read: acc.read.push(Scope::Equipment(id)),
                                    write: acc.write,
                                    create: acc.create,
                                },
                            )
                        } else if action == "WRITE"@ {
                            Ok(
                                ScopeAcc {
                                    read: acc.read,
                                    write: acc.write.push(Scope::Equipment(id)),
                                    create: acc.create,
                                },
                            )
                        } else {
                            Err(ParseError::UnknownAction)
                        }
                    } else if tag == "PERSON"@ {
                        if action == "READ"@ {
                            Ok(
                                ScopeAcc {
                                    read: acc.read.push(Scope::Person(id)),
                                    write: acc.write,
                                    create: acc.create,
                                },
                            )
                        } else if action == "WRITE"@ {
                            Ok(
                                ScopeAcc {
                                    read: acc.read,
                                    write: acc.write.push(Scope::Person(id)),
                                    create: acc.create,
                                },
                            )
                        } else {
                            Err(ParseError::UnknownAction)
                        }
                    } else {
                        Err(ParseError::UnknownScope)
                    }
                },
            },
        },
    }
}

/// A clause's scope items applied to the accumulator one after the other,
/// stopping at the first rejection.
pub open spec fn items_steps(acc: ScopeAcc, action: Seq<char>, items: Seq<Seq<char>>) -> Result<
    ScopeAcc,
    ParseError,
>
    decreases items.len(),
{
    if items.len() == 0 {
        Ok(acc)
    } else {
        match item_step(acc, action, items[0]) {
            Ok(grown) => items_steps(grown, action, items.drop_first()),
            Err(e) => Err(e),
        }
    }
}

/// One normalized clause applied to the accumulator: either a wildcard or
/// create literal, or an action keyword with a comma-separated scope list.
pub open spec fn clause_step(acc: ScopeAcc, cl: Seq<char>) -> Result<ScopeAcc, ParseError> {
    if cl == "READ(*"@ {
        Ok(ScopeAcc { read: acc.read.push(Scope::Any), write: acc.write, create: acc.create })
    } else if cl == "WRITE(*"@ {
        Ok(ScopeAcc { read: acc.read, write: acc.write.push(Scope::Any), create: acc.create })
    } else if cl == "CREATE(TRUE"@ {
        Ok(ScopeAcc { read: acc.read, write: acc.write, create: Some(true) })
    } else if cl == "CREATE(FALSE"@ {
        Ok(ScopeAcc { read: acc.read, write: acc.write, create: Some(false) })
    } else {
        match find_from(cl, '(', 0) {
            None => Err(ParseError::MissingScope),
            Some(p) => items_steps(acc, cl.take(p), split_on(cl.skip(p + 1), ',')),
        }
    }
}

/// All clauses applied in order, stopping at the first rejection.
pub open spec fn clauses_steps(acc: ScopeAcc, cls: Seq<Seq<char>>) -> Result<
    ScopeAcc,
    ParseError,
>
    decreases cls.len(),
{
    if cls.len() == 0 {
        Ok(acc)
    } else {
        match clause_step(acc, cls[0]) {
            Ok(grown) => clauses_steps(grown, cls.drop_first()),
            Err(e) => Err(e),
        }
    }
}

/// The repair pass over a fully accumulated clause set: every required clause
/// kind must have appeared; a write wildcard forces an unrestricted read; a
/// restricted write list is folded into the read list.
pub open spec fn finalize(acc: ScopeAcc) -> Result<PermissionsModel, ParseError> {
    if acc.read.len() == 0 || acc.write.len() == 0 || acc.create is None {
        Err(ParseError::IncompleteSpec)
    } else {
        let create = PermissionModel::Create(acc.create->0);
        if acc.write.contains(Scope::Any) {
            Ok(
                PermissionsModel::ReadWrite {
                    read: PermissionModel::ReadAny,
                    write: PermissionModel::WriteAny,
                    create,
                },
            )
        } else if acc.read.contains(Scope::Any) {
            Ok(
                PermissionsModel::ReadWrite {
                    read: PermissionModel::ReadAny,
                    write: PermissionModel::Write(acc.write),
                    create,
                },
            )
        } else {
            Ok(
                PermissionsModel::ReadWrite {
                    read: PermissionModel::Read(close_scopes(acc.read, acc.write)),
                    write: PermissionModel::Write(acc.write),
                    create,
                },
            )
        }
    }
}

/// The accumulator every parse starts from.
pub open spec fn empty_acc() -> ScopeAcc {
    ScopeAcc { read: Seq::empty(), write: Seq::empty(), create: None }
}

/// The meaning of a permission string under the extended grammar.
pub open spec fn parse_result(s: Seq<char>) -> Result<PermissionsModel, ParseError> {
    match clauses_steps(empty_acc(), split_on(normalize(s), '|')) {
        Ok(acc) => finalize(acc),
        Err(e) => Err(e),
    }
}

/// The equipment ids among a scope list, in first-seen order, duplicates kept.
pub open spec fn equipment_ids(scopes: Seq<Scope>) -> Seq<i32> {
    scopes.filter(|s: Scope| s is Equipment).map_values(|s: Scope| s->Equipment_0)
}

/// The person ids among a scope list, in first-seen order, duplicates kept.
pub open spec fn person_ids(scopes: Seq<Scope>) -> Seq<i32> {
    scopes.filter(|s: Scope| s is Person).map_values(|s: Scope| s->Person_0)
}

/// Comma-joined decimal renderings of a list of ids.
pub open spec fn join_ids(ids: Seq<i32>) -> Seq<char>
    decreases ids.len(),
{
    if ids.len() == 0 {
        Seq::empty()
    } else if ids.len() == 1 {
        crate::text::i32_dec(ids[0] as int)
    } else {
        join_ids(ids.drop_last()) + seq![','] + crate::text::i32_dec(ids.last() as int)
    }
}

/// The column name a caller-supplied field alias resolves to: only the two
/// known columns pass through; anything else falls back to the default.
pub open spec fn sanitize_field(field: Seq<char>) -> Seq<char> {
    if field == "equipment"@ {
        "equipment"@
    } else {
        "id"@
    }
}

/// The conjunction of per-column `IN` restrictions for a read scope list:
/// equipment ids under the resolved field column, person ids under the fixed
/// `person` column, in that order.
pub open spec fn filter_body(scopes: Seq<Scope>, field: Seq<char>) -> Seq<char> {
    let equip = equipment_ids(scopes);
    let pers = person_ids(scopes);
    let equip_part = sanitize_field(field) + " IN ("@ + join_ids(equip) + ")"@;
    let pers_part = "person IN ("@ + join_ids(pers) + ")"@;
    if equip.len() > 0 && pers.len() > 0 {
        equip_part + " AND "@ + pers_part
    } else if equip.len() > 0 {
        equip_part
    } else if pers.len() > 0 {
        pers_part
    } else {
        Seq::empty()
    }
}

/// The row-filter fragment a permission compiles to, introduced by ` WHERE `.
/// Every variant but a restricted read compiles to the empty fragment; in
/// particular a restricted write emits no filter.
pub open spec fn select_filter(p: PermissionModel, field: Seq<char>) -> Seq<char> {
    match p {
        PermissionModel::Read(scopes) => if equipment_ids(scopes).len() == 0 && person_ids(
            scopes,
        ).len() == 0 {
            Seq::empty()
        } else {
            " WHERE "@ + filter_body(scopes, field)
        },
        _ => Seq::empty(),
    }
}

/// The continuation form of [`select_filter`]: the same restrictions spliced
/// after an existing `WHERE` clause, introduced by ` AND `.
pub open spec fn select_filter_continued(p: PermissionModel, field: Seq<char>) -> Seq<char> {
    match p {
        PermissionModel::Read(scopes) => if equipment_ids(scopes).len() == 0 && person_ids(
            scopes,
        ).len() == 0 {
            Seq::empty()
        } else {
            " AND "@ + filter_body(scopes, field)
        },
        _ => Seq::empty(),
    }
}

/// Builds the filter fragment for a read scope list, introduced by `intro`
/// when any restriction is emitted.
#[verifier::loop_isolation(false)]
fn build_filter(scopes: &Vec<Scope>, field: &str, intro: &str) -> (r: String)
    ensures
        r@ == (if equipment_ids(scopes@).len() == 0 && person_ids(scopes@).len() == 0 {
            Seq::<char>::empty()
        } else {
            intro@ + filter_body(scopes@, field@)
        }),
{
    let field_sanitized: &str = if crate::text::str_eq(field, "id") {
        "id"
    } else if crate::text::str_eq(field, "equipment") {
        "equipment"
    } else {
        "id"
    };
    proof {
        assert(field_sanitized@ == sanitize_field(field@));
    }
    let mut equipment_ids_text = String::new();
    let mut person_ids_text = String::new();
    let mut has_equipment = false;
    let mut has_person = false;
    let n: usize = scopes.len();
    for i in 0..n
        invariant
            n == scopes@.len(),
            has_equipment == (equipment_ids(scopes@.take(i as int)).len() > 0),
            has_person == (person_ids(scopes@.take(i as int)).len() > 0),
            equipment_ids_text@ == join_ids(equipment_ids(scopes@.take(i as int))),
            person_ids_text@ == join_ids(person_ids(scopes@.take(i as int))),
    {
        let ghost prefix = scopes@.take(i as int);
        let ghost e_pref = equipment_ids(prefix);
        let ghost p_pref = person_ids(prefix);
        proof {
            assert(scopes@.take(i + 1).drop_last() =~= prefix);
            assert(scopes@.take(i + 1).last() == scopes@[i as int]);
        }
        match scopes[i] {
            Scope::Equipment(id) => {
                proof {
                    assert(equipment_ids(scopes@.take(i + 1)) =~= e_pref.push(id)) by {
                        reveal(Seq::filter);
                    }
                    assert(person_ids(scopes@.take(i + 1)) =~= p_pref) by {
                        reveal(Seq::filter);
                    }
                    reveal_strlit(",");
                    assert(","@ =~= seq![',']);
                }
                if has_equipment {
                    equipment_ids_text.append(",");
                }
                crate::text::push_i32_dec(&mut equipment_ids_text, id);
                has_equipment = true;
                proof {
                    if e_pref.len() == 0 {
                        assert(equipment_ids_text@ =~= join_ids(e_pref.push(id)));
                    } else {
                        assert(e_pref.push(id).drop_last() =~= e_pref);
                        assert(equipment_ids_text@ =~= join_ids(e_pref.push(id)));
                    }
                }
            },
            Scope::Person(id) => {
                proof {
                    assert(person_ids(scopes@.take(i + 1)) =~= p_pref.push(id)) by {
                        reveal(Seq::filter);
                    }
                    assert(equipment_ids(scopes@.take(i + 1)) =~= e_pref) by {
                        reveal(Seq::filter);
                    }
                    reveal_strlit(",");
                    assert(","@ =~= seq![',']);
                }
                if has_person {
                    person_ids_text.append(",");
                }
                crate::text::push_i32_dec(&mut person_ids_text, id);
                has_person = true;
                proof {
                    if p_pref.len() == 0 {
                        assert(person_ids_text@ =~= join_ids(p_pref.push(id)));
                    } else {
                        assert(p_pref.push(id).drop_last() =~= p_pref);
                        assert(person_ids_text@ =~= join_ids(p_pref.push(id)));
                    }
                }
            },
            Scope::Any => {
                proof {
                    assert(equipment_ids(scopes@.take(i + 1)) =~= e_pref) by {
                        reveal(Seq::filter);
                    }
                    assert(person_ids(scopes@.take(i + 1)) =~= p_pref) by {
                        reveal(Seq::filter);
                    }
                }
            },
        }
    }
    proof {
        assert(scopes@.take(n as int) =~= scopes@);
    }
    let mut query = String::new();
    if has_equipment || has_person {
        query.append(intro);
    }
    if has_equipment {
        query.append(field_sanitized);
        query.append(" IN (");
        query.append(equipment_ids_text.as_str());
        query.append(")");
    }
    if has_person {
        if has_equipment {
            query.append(" AND ");
        }
        query.append("person IN (");
        query.append(person_ids_text.as_str());
        query.append(")");
    }
    proof {
        if has_equipment || has_person {
            assert(query@ =~= intro@ + filter_body(scopes@, field@));
        }
    }
    query
}

/// Normalization insensitivity: parsing sees only a string's normal form, so
/// two inputs that normalize alike (differing in spacing, closing parentheses
/// or letter case) parse to the identical result.
pub proof fn lemma_parse_normalization(s1: Seq<char>, s2: Seq<char>)
    requires
        normalize(s1) == normalize(s2),
    ensures
        parse_result(s1) == parse_result(s2),
{
}

/// Any-propagation: a successfully parsed bundle whose write permission is
/// unrestricted always carries an unrestricted read permission, whatever the
/// read clause of the input said.
pub proof fn lemma_any_propagation(s: Seq<char>)
    requires
        parse_result(s) is Ok,
        write_of(parse_result(s)->Ok_0) is WriteAny,
    ensures
        read_of(parse_result(s)->Ok_0) is ReadAny,
{
}

/// Write-scope closure: in every successfully parsed bundle with a restricted
/// read list, each scope of the write list also appears in the read list.
pub proof fn lemma_write_scope_closure(s: Seq<char>, rs: Seq<Scope>, ws: Seq<Scope>)
    requires
        parse_result(s) is Ok,
        read_of(parse_result(s)->Ok_0) == PermissionModel::Read(rs),
        write_of(parse_result(s)->Ok_0) == PermissionModel::Write(ws),
    ensures
        forall|i: int| 0 <= i < ws.len() ==> rs.contains(ws[i]),
{
    let cls = split_on(normalize(s), '|');
    let acc = clauses_steps(empty_acc(), cls)->Ok_0;
    crate::scopes::lemma_close_scopes_covers(acc.read, acc.write);
}

/// An unrestricted permission compiles to the empty filter fragment, whatever
/// field alias the caller supplies; so does a create permission and a
/// restricted write (write-side filtering is not emitted).
pub proof fn lemma_unrestricted_filter_empty(field: Seq<char>)
    ensures
        select_filter(PermissionModel::ReadAny, field) == Seq::<char>::empty(),
        select_filter(PermissionModel::WriteAny, field) == Seq::<char>::empty(),
        select_filter_continued(PermissionModel::ReadAny, field) == Seq::<char>::empty(),
        select_filter_continued(PermissionModel::WriteAny, field) == Seq::<char>::empty(),
{
}

fn contains_scope(v: &Vec<Scope>, s: Scope) -> (r: bool)
    ensures
        r == v@.contains(s),
{
    let n: usize = v.len();
    for i in 0..n
        invariant
            n == v@.len(),
            forall|j: int| 0 <= j < i ==> v@[j] != s,
    {
        if v[i] == s {
            proof {
                assert(v@.contains(s));
            }
            return true;
        }
    }
    proof {
        assert(!v@.contains(s));
    }
    false
}

impl Permission {
    /// Parses a permission string into the read, write and create rights it
    /// grants.  The input is normalized first (spaces and `)` dropped, the
    /// rest uppercased), then split on `|` into clauses; a clause is either a
    /// wildcard or create literal, or an action keyword with a bracketed,
    /// comma-separated scope list.  A write wildcard forces an unrestricted
    /// read, and every restricted write scope is made readable.  The error
    /// carries the reason the string was rejected.
    #[verifier::loop_isolation(false)]
    #[verifier::rlimit(100)]
    pub fn parse(perm: String) -> (result: Result<Permissions, &'static str>)
        ensures
            result is Ok <==> parse_result(perm@) is Ok,
            result matches Ok(p) ==> parse_result(perm@) == Ok::<PermissionsModel, ParseError>(
                p@,
            ),
            result matches Err(m) ==> (parse_result(perm@) matches Err(e) && m@ == error_text(e)),
    {
        let chars = crate::text::normalize_chars(perm.as_str());
        let clauses = crate::text::split_chars(&chars, '|');
        let ghost cls = split_on(normalize(perm@), '|');
        proof {
            assert(clauses.deep_view() == cls);
        }
        let mut read_scopes: Vec<Scope> = Vec::new();
        let mut write_scopes: Vec<Scope> = Vec::new();
        let mut create_scope: Option<bool> = None;
        proof {
            assert(cls.skip(0) =~~= cls);
            assert((ScopeAcc { read: read_scopes@, write: write_scopes@, create: create_scope })
                == empty_acc());
        }
        let n: usize = clauses.len();
        for ci in 0..n
            invariant
                n == clauses@.len(),
                clauses_steps(empty_acc(), cls) == clauses_steps(
                    (ScopeAcc { read: read_scopes@, write: write_scopes@, create: create_scope }),
                    cls.skip(ci as int),
                ),
        {
            let ghost acc_now = ScopeAcc {
                read: read_scopes@,
                write: write_scopes@,
                create: create_scope,
            };
            let ghost gcl = cls[ci as int];
            let cl = &clauses[ci];
            proof {
                crate::text::lemma_vec_char_deep_view(cl);
                assert(cl@ == gcl);
                assert(cls.skip(ci as int)[0] == gcl);
                assert(cls.skip(ci as int).drop_first() =~~= cls.skip(ci + 1));
            }
            if crate::text::chars_eq_str(cl, "READ(*") {
                read_scopes.push(Scope::Any);
            } else if crate::text::chars_eq_str(cl, "WRITE(*") {
                write_scopes.push(Scope::Any);
            } else if crate::text::chars_eq_str(cl, "CREATE(TRUE") {
                create_scope = Some(true);
            } else if crate::text::chars_eq_str(cl, "CREATE(FALSE") {
                create_scope = Some(false);
            } else {
                let p = match crate::text::find_char(cl, '(', 0) {
                    Some(p) => p,
                    None => {
                        return Err("Invalid permission string (No scope found)");
                    },
                };
                let cl_len: usize = cl.len();
                let scope_part = crate::text::subvec(cl, p + 1, cl_len);
                let items = crate::text::split_chars(&scope_part, ',');
                let ghost action = gcl.take(p as int);
                let ghost iseq = split_on(gcl.skip(p + 1), ',');
                proof {
                    assert(scope_part@ =~= gcl.skip(p + 1));
                    assert(items.deep_view() == iseq);
                    assert(clause_step(acc_now, gcl) == items_steps(acc_now, action, iseq));
                }
                let is_read = crate::text::range_eq_str(cl, 0, p, "READ");
                let is_write = crate::text::range_eq_str(cl, 0, p, "WRITE");
                proof {
                    assert(gcl.subrange(0, p as int) =~= action);
                    assert(iseq.skip(0) =~~= iseq);
                }
                let m: usize = items.len();
                for ij in 0..m
                    invariant
                        m == items@.len(),
                        items_steps(acc_now, action, iseq) == items_steps(
                            (ScopeAcc {
                                read: read_scopes@,
                                write: write_scopes@,
                                create: create_scope,
                            }),
                            action,
                            iseq.skip(ij as int),
                        ),
                {
                    let ghost acc_it = ScopeAcc {
                        read: read_scopes@,
                        write: write_scopes@,
                        create: create_scope,
                    };
                    let ghost gitem = iseq[ij as int];
                    let item = &items[ij];
                    proof {
                        crate::text::lemma_vec_char_deep_view(item);
                        assert(item@ == gitem);
                        assert(iseq.skip(ij as int)[0] == gitem);
                        assert(iseq.skip(ij as int).drop_first() =~~= iseq.skip(ij + 1));
                    }
                    let ob = match crate::text::find_char(item, '[', 0) {
                        Some(x) => x,
                        None => {
                            return Err("Invalid permission string (Missing id)");
                        },
                    };
                    let cb = match crate::text::find_char(item, ']', ob + 1) {
                        Some(x) => x,
                        None => {
                            return Err("Invalid permission string (Missing id)");
                        },
                    };
                    let id = match crate::text::parse_i32_range(item, ob + 1, cb) {
                        Some(x) => x,
                        None => {
                            return Err("Invalid permission string (Could not parse id)");
                        },
                    };
                    proof {
                        assert(gitem.subrange(0, ob as int) =~= gitem.take(ob as int));
                    }
                    if crate::text::range_eq_str(item, 0, ob, "EQUIPMENT") {
                        if is_read {
                            read_scopes.push(Scope::Equipment(id));
                        } else if is_write {
                            write_scopes.push(Scope::Equipment(id));
                        } else {
                            return Err("Invalid permission string (Unrecognized action)");
                        }
                    } else if crate::text::range_eq_str(item, 0, ob, "PERSON") {
                        if is_read {
                            read_scopes.push(Scope::Person(id));
                        } else if is_write {
                            write_scopes.push(Scope::Person(id));
                        } else {
                            return Err("Invalid permission string (Unrecognized action)");
                        }
                    } else {
                        return Err("Invalid permission string (Unrecognized scope)");
                    }
                }
            }
        }
        let ghost acc_fin = ScopeAcc {
            read: read_scopes@,
            write: write_scopes@,
            create: create_scope,
        };
        proof {
            assert(cls.skip(n as int) =~~= Seq::<Seq<char>>::empty());
            assert(clauses_steps(empty_acc(), cls) == Ok::<ScopeAcc, ParseError>(acc_fin));
        }
        if read_scopes.len() == 0 || write_scopes.len() == 0 || create_scope.is_none() {
            return Err("Invalid permission string (No action/scope found)");
        }
        let create_flag: bool = match create_scope {
            Some(b) => b,
            None => false,
        };
        let create = Permission::Create(create_flag);
        if contains_scope(&write_scopes, Scope::Any) {
            Ok(
                Permissions::ReadWrite {
                    read: Permission::ReadAny,
                    write: Permission::WriteAny,
                    create,
                },
            )
        } else if contains_scope(&read_scopes, Scope::Any) {
            Ok(
                Permissions::ReadWrite {
                    read: Permission::ReadAny,
                    write: Permission::Write(write_scopes),
                    create,
                },
            )
        } else {
            let ghost read0 = read_scopes@;
            proof {
                assert(acc_fin.write.skip(0) =~= acc_fin.write);
            }
            let wn: usize = write_scopes.len();
            for wi in 0..wn
                invariant
                    wn == write_scopes@.len(),
                    write_scopes@ == acc_fin.write,
                    close_scopes(read0, acc_fin.write) == close_scopes(
                        read_scopes@,
                        acc_fin.write.skip(wi as int),
                    ),
            {
                let s = write_scopes[wi];
                proof {
                    assert(acc_fin.write.skip(wi as int)[0] == s);
                    assert(acc_fin.write.skip(wi as int).drop_first() =~= acc_fin.write.skip(
                        wi + 1,
                    ));
                }
                if !contains_scope(&read_scopes, s) {
                    read_scopes.push(s);
                }
            }
            proof {
                assert(acc_fin.write.skip(wn as int) =~= Seq::<Scope>::empty());
            }
            Ok(
                Permissions::ReadWrite {
                    read: Permission::Read(read_scopes),
                    write: Permission::Write(write_scopes),
                    create,
                },
            )
        }
    }

    /// Compiles this permission into a row-filter fragment introduced by
    /// ` WHERE `, restricting a selection to the rows its read scopes cover.
    /// Unrestricted permissions compile to the empty fragment, and so does a
    /// restricted write: write-side filtering is not emitted by this variant
    /// of the grammar, and callers must not rely on it being enforced.
    pub fn get_query_select(&self, field: &str) -> (r: String)
        ensures
            r@ == select_filter(self@, field@),
    {
        match self {
            Permission::Read(scopes) => build_filter(scopes, field, " WHERE "),
            _ => String::new(),
        }
    }

    /// The continuation form of [`Permission::get_query_select`]: the same
    /// restrictions introduced by ` AND `, for splicing after an existing
    /// `WHERE` clause.
    pub fn get_query_select_without_where(&self, field: &str) -> (r: String)
        ensures
            r@ == select_filter_continued(self@, field@),
    {
        match self {
            Permission::Read(scopes) => build_filter(scopes, field, " AND "),
            _ => String::new(),
        }
    }
}

} // verus!
