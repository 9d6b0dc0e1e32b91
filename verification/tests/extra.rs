use perm_grammar::auth;
use perm_grammar::permission::Permission;
use perm_grammar::permission::Permissions;
use perm_grammar::permission::Scope;

#[test]
fn unrestricted_permissions_compile_to_empty() {
    assert_eq!(Permission::ReadAny.get_query_select("id"), String::new());
    assert_eq!(Permission::WriteAny.get_query_select("id"), String::new());
    assert_eq!(Permission::Create(true).get_query_select("id"), String::new());
    assert_eq!(Permission::ReadAny.get_query_select_without_where("id"), String::new());
    assert_eq!(Permission::WriteAny.get_query_select_without_where("equipment"), String::new());
}

#[test]
fn restricted_write_compiles_to_empty() {
    assert_eq!(
        Permission::Write(vec![Scope::Equipment(1), Scope::Person(2)]).get_query_select("id"),
        String::new()
    );
}

#[test]
fn empty_and_wildcard_scope_lists_compile_to_empty() {
    assert_eq!(Permission::Read(vec![]).get_query_select("id"), String::new());
    assert_eq!(Permission::Read(vec![Scope::Any]).get_query_select("id"), String::new());
    assert_eq!(
        Permission::Read(vec![Scope::Any, Scope::Person(3)]).get_query_select("id"),
        String::from(" WHERE person IN (3)")
    );
}

#[test]
fn negative_ids_render_with_sign() {
    assert_eq!(
        Permission::parse(String::from(
            "READ(equipment[-5])|WRITE(equipment[-5])|CREATE(true)"
        )),
        Ok(Permissions::ReadWrite {
            read: Permission::Read(vec![Scope::Equipment(-5)]),
            write: Permission::Write(vec![Scope::Equipment(-5)]),
            create: Permission::Create(true),
        })
    );
    assert_eq!(
        Permission::Read(vec![Scope::Equipment(-5), Scope::Person(-2147483648)])
            .get_query_select("id"),
        String::from(" WHERE id IN (-5) AND person IN (-2147483648)")
    );
}

#[test]
fn ids_at_i32_bounds() {
    assert_eq!(
        Permission::parse(String::from(
            "READ(equipment[2147483647])|WRITE(equipment[-2147483648])|CREATE(false)"
        )),
        Ok(Permissions::ReadWrite {
            read: Permission::Read(vec![
                Scope::Equipment(2147483647),
                Scope::Equipment(-2147483648)
            ]),
            write: Permission::Write(vec![Scope::Equipment(-2147483648)]),
            create: Permission::Create(false),
        })
    );
    assert_eq!(
        Permission::parse(String::from(
            "READ(equipment[2147483648])|WRITE(equipment[1])|CREATE(false)"
        )),
        Err("Invalid permission string (Could not parse id)")
    );
    assert_eq!(
        Permission::parse(String::from(
            "READ(equipment[-2147483649])|WRITE(equipment[1])|CREATE(false)"
        )),
        Err("Invalid permission string (Could not parse id)")
    );
}

#[test]
fn explicit_plus_sign_is_accepted() {
    assert_eq!(
        Permission::parse(String::from("READ(equipment[+7])|WRITE(equipment[+7])|CREATE(true)")),
        Ok(Permissions::ReadWrite {
            read: Permission::Read(vec![Scope::Equipment(7)]),
            write: Permission::Write(vec![Scope::Equipment(7)]),
            create: Permission::Create(true),
        })
    );
}

#[test]
fn missing_create_clause_is_incomplete() {
    assert_eq!(
        Permission::parse(String::from("READ(*)|WRITE(*)")),
        Err("Invalid permission string (No action/scope found)")
    );
}

#[test]
fn empty_string_is_rejected() {
    assert_eq!(
        Permission::parse(String::new()),
        Err("Invalid permission string (No scope found)")
    );
    assert_eq!(auth::Permission::parse(String::new()), Err("Invalid permission string"));
}

#[test]
fn auth_second_scope_clause_replaces_the_first() {
    assert_eq!(
        auth::Permission::parse(String::from("READ(7)|READ(8)|WRITE(8)")),
        Ok(auth::Permissions::ReadWrite {
            read: auth::Permission::Read(vec![8]),
            write: auth::Permission::Write(vec![8])
        })
    );
}

#[test]
fn auth_literal_wildcard_id_acts_as_wildcard() {
    assert_eq!(
        auth::Permission::parse(String::from("READ(1)|WRITE(-1,2)")),
        Ok(auth::Permissions::ReadWrite {
            read: auth::Permission::ReadAny,
            write: auth::Permission::WriteAny
        })
    );
}

#[test]
fn into_user_parses_every_permission_column() {
    let row = auth::UserSQL {
        id: 42,
        username: String::from("ada"),
        password: String::from("hashed-password-bytes"),
        permission_equipment: String::from("READ(1,2)|WRITE(2,3)"),
        permission_user: String::from("READ(*)|WRITE(5)"),
        permission_todo: String::from("READ(4)|WRITE(*)"),
    };
    let (user, _passhash) = row.into_user();
    assert_eq!(user.id, 42);
    assert_eq!(user.username, String::from("ada"));
    assert_eq!(
        user.permission_equipment,
        auth::Permissions::ReadWrite {
            read: auth::Permission::Read(vec![1, 2, 3]),
            write: auth::Permission::Write(vec![2, 3])
        }
    );
    assert_eq!(
        user.permission_user,
        auth::Permissions::ReadWrite {
            read: auth::Permission::ReadAny,
            write: auth::Permission::Write(vec![5])
        }
    );
    assert_eq!(
        user.permission_todo,
        auth::Permissions::ReadWrite {
            read: auth::Permission::ReadAny,
            write: auth::Permission::WriteAny
        }
    );
}

#[test]
fn default_user_is_the_unrestricted_guest() {
    let user = auth::User::default();
    assert_eq!(user.id, -1);
    assert_eq!(user.username, String::from("Guest"));
    assert_eq!(
        user.permission_todo,
        auth::Permissions::ReadWrite {
            read: auth::Permission::ReadAny,
            write: auth::Permission::WriteAny
        }
    );
}

#[test]
fn duplicate_ids_are_kept_in_parse_and_compile() {
    assert_eq!(
        Permission::parse(String::from(
            "READ(equipment[1],equipment[1])|WRITE(equipment[1])|CREATE(false)"
        )),
        Ok(Permissions::ReadWrite {
            read: Permission::Read(vec![Scope::Equipment(1), Scope::Equipment(1)]),
            write: Permission::Write(vec![Scope::Equipment(1)]),
            create: Permission::Create(false),
        })
    );
    assert_eq!(
        Permission::Read(vec![Scope::Equipment(1), Scope::Equipment(1)]).get_query_select("id"),
        String::from(" WHERE id IN (1,1)")
    );
}

#[test]
fn continuation_form_matches_fresh_clause_form() {
    let perm = Permission::Read(vec![Scope::Equipment(1), Scope::Person(9)]);
    assert_eq!(perm.get_query_select("id"), String::from(" WHERE id IN (1) AND person IN (9)"));
    assert_eq!(
        perm.get_query_select_without_where("id"),
        String::from(" AND id IN (1) AND person IN (9)")
    );
}
