//! The minimal permission grammar and the user record it is attached to.
//!
//! This variant has no scope-kind tags and no create clause: a clause is
//! `READ(…)` or `WRITE(…)` over bare integers, the wildcard `*` is recorded
//! as the id `-1`, and every rejection carries the one reason string
//! `Invalid permission string`.

use vstd::prelude::*;

use crate::scopes::close_scopes;
use crate::text::find_from;
use crate::text::normalize;
use crate::text::parse_i32_spec;
use crate::text::split_on;
use vstd::string::StringExecFns;

verus! {

/// One action's right: unrestricted, or restricted to a list of ids.
#[derive(Clone, Debug, PartialEq, Eq)]
pub enum Permission {
    ReadAny,
    Read(Vec<i32>),
    WriteAny,
    Write(Vec<i32>),
}

/// The shape of a [`Permission`] in specifications: id lists as sequences.
pub enum PermissionModel {
    ReadAny,
    Read(Seq<i32>),
    WriteAny,
    Write(Seq<i32>),
}

impl View for Permission {
    type V = PermissionModel;

    open spec fn view(&self) -> PermissionModel {
        match self {
            Permission::ReadAny => PermissionModel::ReadAny,
            Permission::Read(ids) => PermissionModel::Read(ids@),
            Permission::WriteAny => PermissionModel::WriteAny,
            Permission::Write(ids) => PermissionModel::Write(ids@),
        }
    }
}

/// The read and write rights attached to one resource domain of a subject.
#[derive(Clone, Debug, PartialEq, Eq)]
pub enum Permissions {
    ReadWrite { read: Permission, write: Permission },
}

/// The shape of a [`Permissions`] value in specifications.
pub enum PermissionsModel {
    ReadWrite { read: PermissionModel, write: PermissionModel },
}

impl View for Permissions {
    type V = PermissionsModel;

    open spec fn view(&self) -> PermissionsModel {
        match self {
            Permissions::ReadWrite { read, write } => PermissionsModel::ReadWrite {
                read: read@,
                write: write@,
            },
        }
    }
}

/// The read permission of a bundle.
pub open spec fn read_of(p: PermissionsModel) -> PermissionModel {
    match p {
        PermissionsModel::ReadWrite { read, .. } => read,
    }
}

/// The write permission of a bundle.
pub open spec fn write_of(p: PermissionsModel) -> PermissionModel {
    match p {
        PermissionsModel::ReadWrite { write, .. } => write,
    }
}

/// Parser accumulator: the read and write id lists collected so far.
pub struct IdAcc {
    pub read: Seq<i32>,
    pub write: Seq<i32>,
}

/// Whether every item of a scope list parses as an integer.
pub open spec fn all_ids(items: Seq<Seq<char>>) -> bool {
    forall|i: int| 0 <= i < items.len() ==> parse_i32_spec(items[i]) is Some
}

/// The parsed ids of a scope list whose items all parse.
pub open spec fn ids_of(items: Seq<Seq<char>>) -> Seq<i32> {
    items.map_values(|item: Seq<char>| parse_i32_spec(item)->0)
}

/// One normalized clause applied to the accumulator: a wildcard literal
/// appends the marker id `-1`; an action keyword with an id list replaces
/// that action's whole list.
pub open spec fn clause_step(acc: IdAcc, cl: Seq<char>) -> Option<IdAcc> {
    if cl == "READ(*"@ {
        Some(IdAcc { read: acc.read.push(-1i32), write: acc.write })
    } else if cl == "WRITE(*"@ {
        Some(IdAcc { read: acc.read, write: acc.write.push(-1i32) })
    } else {
        match find_from(cl, '(', 0) {
            None => None,
            Some(p) => {
                let action = cl.take(p);
                let items = split_on(cl.skip(p + 1), ',');
                if !all_ids(items) {
                    None
                } else if action == "READ"@ {
                    Some(IdAcc { read: ids_of(items), write: acc.write })
                } else if action == "WRITE"@ {
                    Some(IdAcc { read: acc.read, write: ids_of(items) })
                } else {
                    None
                }
            },
        }
    }
}

/// All clauses applied in order, stopping at the first rejection.
pub open spec fn clauses_steps(acc: IdAcc, cls: Seq<Seq<char>>) -> Option<IdAcc>
    decreases cls.len(),
{
    if cls.len() == 0 {
        Some(acc)
    } else {
        match clause_step(acc, cls[0]) {
            Some(grown) => clauses_steps(grown, cls.drop_first()),
            None => None,
        }
    }
}

/// The repair pass: both actions must have appeared; a write wildcard forces
/// an unrestricted read; a restricted write list is folded into the read list.
pub open spec fn finalize(acc: IdAcc) -> Option<PermissionsModel> {
    if acc.read.len() == 0 || acc.write.len() == 0 {
        None
    } else if acc.write.contains(-1i32) {
        Some(
            PermissionsModel::ReadWrite {
                read: PermissionModel::ReadAny,
                write: PermissionModel::WriteAny,
            },
        )
    } else if acc.read.contains(-1i32) {
        Some(
            PermissionsModel::ReadWrite {
                read: PermissionModel::ReadAny,
                write: PermissionModel::Write(acc.write),
            },
        )
    } else {
        Some(
            PermissionsModel::ReadWrite {
                read: PermissionModel::Read(close_scopes(acc.read, acc.write)),
                write: PermissionModel::Write(acc.write),
            },
        )
    }
}

/// The accumulator every parse starts from.
pub open spec fn empty_acc() -> IdAcc {
    IdAcc { read: Seq::empty(), write: Seq::empty() }
}

/// The meaning of a permission string under the minimal grammar; `None` is
/// a rejection.
pub open spec fn parse_result(s: Seq<char>) -> Option<PermissionsModel> {
    match clauses_steps(empty_acc(), split_on(normalize(s), '|')) {
        Some(acc) => finalize(acc),
        None => None,
    }
}

fn contains_id(v: &Vec<i32>, x: i32) -> (r: bool)
    ensures
        r == v@.contains(x),
{
    let n: usize = v.len();
    for i in 0..n
        invariant
            n == v@.len(),
            forall|j: int| 0 <= j < i ==> v@[j] != x,
    {
        if v[i] == x {
            proof {
                assert(v@.contains(x));
            }
            return true;
        }
    }
    proof {
        assert(!v@.contains(x));
    }
    false
}

impl Permission {
    /// Parses a permission string into the read and write rights it grants.
    /// The input is normalized (spaces and `)` dropped, the rest uppercased)
    /// and split on `|`; a clause is a wildcard literal or an action keyword
    /// with comma-separated integer ids.  A write wildcard forces an
    /// unrestricted read, and every restricted write id is made readable.
    #[verifier::loop_isolation(false)]
    #[verifier::rlimit(100)]
    pub fn parse(perm: String) -> (result: Result<Permissions, &'static str>)
        ensures
            result is Ok <==> parse_result(perm@) is Some,
            result matches Ok(p) ==> parse_result(perm@) == Some(p@),
            result matches Err(m) ==> m@ == "Invalid permission string"@,
    {
        let chars = crate::text::normalize_chars(perm.as_str());
        let clauses = crate::text::split_chars(&chars, '|');
        let ghost cls = split_on(normalize(perm@), '|');
        proof {
            assert(clauses.deep_view() == cls);
        }
        let mut read_ids: Vec<i32> = Vec::new();
        let mut write_ids: Vec<i32> = Vec::new();
        proof {
            assert(cls.skip(0) =~~= cls);
            assert((IdAcc { read: read_ids@, write: write_ids@ }) == empty_acc());
        }
        let n: usize = clauses.len();
        for ci in 0..n
            invariant
                n == clauses@.len(),
                clauses_steps(empty_acc(), cls) == clauses_steps(
                    (IdAcc { read: read_ids@, write: write_ids@ }),
                    cls.skip(ci as int),
                ),
        {
            let ghost acc_now = IdAcc { read: read_ids@, write: write_ids@ };
            let ghost gcl = cls[ci as int];
            let cl = &clauses[ci];
            proof {
                crate::text::lemma_vec_char_deep_view(cl);
                assert(cl@ == gcl);
                assert(cls.skip(ci as int)[0] == gcl);
                assert(cls.skip(ci as int).drop_first() =~~= cls.skip(ci + 1));
            }
            if crate::text::chars_eq_str(cl, "READ(*") {
                read_ids.push(-1);
            } else if crate::text::chars_eq_str(cl, "WRITE(*") {
                write_ids.push(-1);
            } else {
                let p = match crate::text::find_char(cl, '(', 0) {
                    Some(p) => p,
                    None => {
                        return Err("Invalid permission string");
                    },
                };
                let cl_len: usize = cl.len();
                let scope_part = crate::text::subvec(cl, p + 1, cl_len);
                let items = crate::text::split_chars(&scope_part, ',');
                let ghost action = gcl.take(p as int);
                let ghost iseq = split_on(gcl.skip(p + 1), ',');
                proof {
                    assert(scope_part@ =~= gcl.skip(p + 1));
                    assert(items.deep_view() == iseq);
                }
                let m: usize = items.len();
                let mut ids: Vec<i32> = Vec::new();
                for ij in 0..m
                    invariant
                        m == items@.len(),
                        ids@.len() == ij,
                        forall|j: int| 0 <= j < ij ==> #[trigger] parse_i32_spec(iseq[j])
                            is Some && ids@[j] == parse_i32_spec(iseq[j])->0,
                {
                    let ghost gitem = iseq[ij as int];
                    let item = &items[ij];
                    proof {
                        crate::text::lemma_vec_char_deep_view(item);
                        assert(item@ == gitem);
                        assert(gitem.subrange(0, gitem.len() as int) =~= gitem);
                    }
                    let item_len: usize = item.len();
                    let id = match crate::text::parse_i32_range(item, 0, item_len) {
                        Some(x) => x,
                        None => {
                            proof {
                                assert(!all_ids(iseq));
                            }
                            return Err("Invalid permission string");
                        },
                    };
                    ids.push(id);
                    proof {
                        assert(parse_i32_spec(gitem) == Some(id));
                    }
                }
                proof {
                    assert(m == iseq.len());
                    assert(all_ids(iseq));
                    assert(ids@ =~= ids_of(iseq));
                    assert(gcl.subrange(0, p as int) =~= action);
                }
                if crate::text::range_eq_str(cl, 0, p, "READ") {
                    read_ids = ids;
                } else if crate::text::range_eq_str(cl, 0, p, "WRITE") {
                    write_ids = ids;
                } else {
                    return Err("Invalid permission string");
                }
            }
        }
        let ghost acc_fin = IdAcc { read: read_ids@, write: write_ids@ };
        proof {
            assert(cls.skip(n as int) =~~= Seq::<Seq<char>>::empty());
            assert(clauses_steps(empty_acc(), cls) == Some(acc_fin));
        }
        if read_ids.len() == 0 || write_ids.len() == 0 {
            return Err("Invalid permission string");
        }
        if contains_id(&write_ids, -1) {
            Ok(Permissions::ReadWrite { read: Permission::ReadAny, write: Permission::WriteAny })
        } else if contains_id(&read_ids, -1) {
            Ok(
                Permissions::ReadWrite {
                    read: Permission::ReadAny,
                    write: Permission::Write(write_ids),
                },
            )
        } else {
            let ghost read0 = read_ids@;
            proof {
                assert(acc_fin.write.skip(0) =~= acc_fin.write);
            }
            let wn: usize = write_ids.len();
            for wi in 0..wn
                invariant
                    wn == write_ids@.len(),
                    write_ids@ == acc_fin.write,
                    close_scopes(read0, acc_fin.write) == close_scopes(
                        read_ids@,
                        acc_fin.write.skip(wi as int),
                    ),
            {
                let x = write_ids[wi];
                proof {
                    assert(acc_fin.write.skip(wi as int)[0] == x);
                    assert(acc_fin.write.skip(wi as int).drop_first() =~= acc_fin.write.skip(
                        wi + 1,
                    ));
                }
                if !contains_id(&read_ids, x) {
                    read_ids.push(x);
                }
            }
            proof {
                assert(acc_fin.write.skip(wn as int) =~= Seq::<i32>::empty());
            }
            Ok(
                Permissions::ReadWrite {
                    read: Permission::Read(read_ids),
                    write: Permission::Write(write_ids),
                },
            )
        }
    }
}

/// A user as the surrounding system sees it: no password material, and the
/// permission column of each resource domain already parsed.
#[derive(Clone, Debug, PartialEq, Eq)]
pub struct User {
    pub id: i32,
    pub username: String,
    pub permission_equipment: Permissions,
    pub permission_user: Permissions,
    pub permission_todo: Permissions,
}

/// A user row as persisted: the password hash and the permission columns raw.
#[derive(Debug, Clone, PartialEq)]
pub struct UserSQL {
    pub id: i32,
    pub username: String,
    pub password: String,
    pub permission_equipment: String,
    pub permission_user: String,
    pub permission_todo: String,
}

/// A password hash, kept in a type of its own so that it is never carried
/// around together with a [`User`].
#[derive(Clone, Debug, PartialEq, Eq)]
pub struct UserPasshash(String);

impl View for UserPasshash {
    type V = Seq<char>;

    closed spec fn view(&self) -> Seq<char> {
        self.0@
    }
}

impl UserSQL {
    /// Splits a persisted row into the user value and its password hash.  The
    /// three permission columns must hold valid permission strings: the
    /// conversion has no error path of its own.
    pub fn into_user(self) -> (r: (User, UserPasshash))
        requires
            parse_result(self.permission_equipment@) is Some,
            parse_result(self.permission_user@) is Some,
            parse_result(self.permission_todo@) is Some,
        ensures
            r.0.id == self.id,
            r.0.username@ == self.username@,
            Some(r.0.permission_equipment@) == parse_result(self.permission_equipment@),
            Some(r.0.permission_user@) == parse_result(self.permission_user@),
            Some(r.0.permission_todo@) == parse_result(self.permission_todo@),
            r.1@ == self.password@,
    {
        let UserSQL { id, username, password, permission_equipment, permission_user, permission_todo } = self;
        let permission_equipment = match Permission::parse(permission_equipment) {
            Ok(p) => p,
            Err(_) => vstd::pervasive::unreached(),
        };
        let permission_user = match Permission::parse(permission_user) {
            Ok(p) => p,
            Err(_) => vstd::pervasive::unreached(),
        };
        let permission_todo = match Permission::parse(permission_todo) {
            Ok(p) => p,
            Err(_) => vstd::pervasive::unreached(),
        };
        let user = User { id, username, permission_equipment, permission_user, permission_todo };
        (user, UserPasshash(password))
    }
}

impl Default for User {
    /// The guest user: id `-1` and unrestricted rights on every domain.
    fn default() -> (r: Self)
        ensures
            r.id == -1,
            r.username@ == "Guest"@,
            r.permission_equipment@ == (PermissionsModel::ReadWrite {
                read: PermissionModel::ReadAny,
                write: PermissionModel::WriteAny,
            }),
            r.permission_user@ == (PermissionsModel::ReadWrite {
                read: PermissionModel::ReadAny,
                write: PermissionModel::WriteAny,
            }),
            r.permission_todo@ == (PermissionsModel::ReadWrite {
                read: PermissionModel::ReadAny,
                write: PermissionModel::WriteAny,
            }),
    {
        User {
            id: -1,
            username: String::from_str("Guest"),
            permission_equipment: Permissions::ReadWrite {
                read: Permission::ReadAny,
                write: Permission::WriteAny,
            },
            permission_user: Permissions::ReadWrite {
                read: Permission::ReadAny,
                write: Permission::WriteAny,
            },
            permission_todo: Permissions::ReadWrite {
                read: Permission::ReadAny,
                write: Permission::WriteAny,
            },
        }
    }
}

/// Normalization insensitivity: two inputs with the same normal form parse to
/// the identical result.
pub proof fn lemma_parse_normalization(s1: Seq<char>, s2: Seq<char>)
    requires
        normalize(s1) == normalize(s2),
    ensures
        parse_result(s1) == parse_result(s2),
{
}

/// Any-propagation: a successfully parsed bundle whose write permission is
/// unrestricted always carries an unrestricted read permission.
pub proof fn lemma_any_propagation(s: Seq<char>)
    requires
        parse_result(s) is Some,
        write_of(parse_result(s)->0) is WriteAny,
    ensures
        read_of(parse_result(s)->0) is ReadAny,
{
}

/// Write-scope closure: in every successfully parsed bundle with a restricted
/// read list, each id of the write list also appears in the read list.
pub proof fn lemma_write_scope_closure(s: Seq<char>, rs: Seq<i32>, ws: Seq<i32>)
    requires
        parse_result(s) is Some,
        read_of(parse_result(s)->0) == PermissionModel::Read(rs),
        write_of(parse_result(s)->0) == PermissionModel::Write(ws),
    ensures
        forall|i: int| 0 <= i < ws.len() ==> rs.contains(ws[i]),
{
    let cls = split_on(normalize(s), '|');
    let acc = clauses_steps(empty_acc(), cls)->0;
    crate::scopes::lemma_close_scopes_covers(acc.read, acc.write);
}

} // verus!
