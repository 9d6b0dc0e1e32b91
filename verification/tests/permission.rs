use perm_grammar::permission::Permission;
use perm_grammar::permission::Permissions;
use perm_grammar::permission::Scope;

#[test]
fn permission_permission_parse_test() {
    assert_eq!(
        Permission::parse(String::from("READ(*)|WRITE(*)|CREATE(false)")),
        Ok(Permissions::ReadWrite {
            read: Permission::ReadAny,
            write: Permission::WriteAny,
            create: Permission::Create(false),
        })
    );
    assert_eq!(
        Permission::parse(String::from("READ(equipment[1])|WRITE(equipment[1])|CREATE(true)")),
        Ok(Permissions::ReadWrite {
            read: Permission::Read(vec![Scope::Equipment(1)]),
            write: Permission::Write(vec![Scope::Equipment(1)]),
            create: Permission::Create(true),
        })
    );
    assert_eq!(
        Permission::parse(String::from("READ(equipment[1])|WRITE(equipment[1])|CREATE(false)")),
        Ok(Permissions::ReadWrite {
            read: Permission::Read(vec![Scope::Equipment(1)]),
            write: Permission::Write(vec![Scope::Equipment(1)]),
            create: Permission::Create(false),
        })
    );
    assert_eq!(
        Permission::parse(String::from("READ(person[1])|WRITE(person[1])|CREATE(false)")),
        Ok(Permissions::ReadWrite {
            read: Permission::Read(vec![Scope::Person(1)]),
            write: Permission::Write(vec![Scope::Person(1)]),
            create: Permission::Create(false),
        })
    );
    assert_eq!(
        Permission::parse(String::from(
            "READ(*)|WRITE(equipment[1],equipment[5],person[7])|CREATE(false)"
        )),
        Ok(Permissions::ReadWrite {
            read: Permission::ReadAny,
            write: Permission::Write(vec![
                Scope::Equipment(1),
                Scope::Equipment(5),
                Scope::Person(7)
            ]),
            create: Permission::Create(false),
        })
    );

    assert_eq!(
        Permission::parse(String::from("WriTE(*)|REad(*)|CREATE(true)")),
        Ok(Permissions::ReadWrite {
            read: Permission::ReadAny,
            write: Permission::WriteAny,
            create: Permission::Create(true),
        })
    );
    assert_eq!(
        Permission::parse(String::from("READ( * )|WRITE(* )|CREATE( true )")),
        Ok(Permissions::ReadWrite {
            read: Permission::ReadAny,
            write: Permission::WriteAny,
            create: Permission::Create(true),
        })
    );
    assert_eq!(
        Permission::parse(String::from("READ (*) | WRITE( *)| CREATE(false )")),
        Ok(Permissions::ReadWrite {
            read: Permission::ReadAny,
            write: Permission::WriteAny,
            create: Permission::Create(false),
        })
    );
    assert_eq!(
        Permission::parse(String::from("read(*)|write(*)|create(FALSE)")),
        Ok(Permissions::ReadWrite {
            read: Permission::ReadAny,
            write: Permission::WriteAny,
            create: Permission::Create(false),
        })
    );
    assert_eq!(
        Permission::parse(String::from(
            "READ(equipment[1],equipment[2],equipment[4564],equipment[789])|WRITE(equipment[1],equipment[2],equipment[3],equipment[4])|CREATE(false)"
        )),
        Ok(Permissions::ReadWrite {
            read: Permission::Read(vec![
                Scope::Equipment(1),
                Scope::Equipment(2),
                Scope::Equipment(4564),
                Scope::Equipment(789),
                Scope::Equipment(3),
                Scope::Equipment(4),
            ]),
            write: Permission::Write(vec![
                Scope::Equipment(1),
                Scope::Equipment(2),
                Scope::Equipment(3),
                Scope::Equipment(4)
            ]),
            create: Permission::Create(false),
        })
    );
    assert_eq!(
        Permission::parse(String::from(
            "READ(equipment[5], equipment[99], equipment[0]) | WRITE(equipment[5], equipment[99]   , equipment[0] )| CREATE( true  )"
        )),
        Ok(Permissions::ReadWrite {
            read: Permission::Read(vec![
                Scope::Equipment(5),
                Scope::Equipment(99),
                Scope::Equipment(0)
            ]),
            write: Permission::Write(vec![
                Scope::Equipment(5),
                Scope::Equipment(99),
                Scope::Equipment(0)
            ]),
            create: Permission::Create(true),
        })
    );

    assert_eq!(
        Permission::parse(String::from(
            "READ(equipment[1],equipment[2])|WRITE(equipment[1],equipment[2],equipment[3])|CREATE(false)"
        )),
        Ok(Permissions::ReadWrite {
            read: Permission::Read(vec![
                Scope::Equipment(1),
                Scope::Equipment(2),
                Scope::Equipment(3)
            ]),
            write: Permission::Write(vec![
                Scope::Equipment(1),
                Scope::Equipment(2),
                Scope::Equipment(3)
            ]),
            create: Permission::Create(false),
        })
    );
    assert_eq!(
        Permission::parse(String::from(
            "READ(equipment[1],equipment[2],equipment[3])|WRITE(equipment[1],equipment[2])|CREATE(false)"
        )),
        Ok(Permissions::ReadWrite {
            read: Permission::Read(vec![
                Scope::Equipment(1),
                Scope::Equipment(2),
                Scope::Equipment(3)
            ]),
            write: Permission::Write(vec![Scope::Equipment(1), Scope::Equipment(2)]),
            create: Permission::Create(false),
        })
    );
    assert_eq!(
        Permission::parse(String::from("READ(*)|WRITE(equipment[1],equipment[2])|CREATE(FALSE)")),
        Ok(Permissions::ReadWrite {
            read: Permission::ReadAny,
            write: Permission::Write(vec![Scope::Equipment(1), Scope::Equipment(2)]),
            create: Permission::Create(false),
        })
    );
    assert_eq!(
        Permission::parse(String::from("READ(equipment[1],equipment[2])|WRITE(*)|CREATE(true)")),
        Ok(Permissions::ReadWrite {
            read: Permission::ReadAny,
            write: Permission::WriteAny,
            create: Permission::Create(true),
        })
    );

    assert_eq!(
        Permission::parse(String::from("READ||WRITE(equipment[1])|CREATE(false)")),
        Err("Invalid permission string (No scope found)")
    );
    assert_eq!(
        Permission::parse(String::from("READ(equipment[1])||WRITE")),
        Err("Invalid permission string (No scope found)")
    );
    assert_eq!(
        Permission::parse(String::from("READ(equipment[1])|WRITE(equipment[1])|CREATE")),
        Err("Invalid permission string (No scope found)")
    );
    assert_eq!(
        Permission::parse(String::from("READ(equipment[1])")),
        Err("Invalid permission string (No action/scope found)")
    );
    assert_eq!(
        Permission::parse(String::from("WRITE(equipment[1])")),
        Err("Invalid permission string (No action/scope found)")
    );
    assert_eq!(
        Permission::parse(String::from("CREATE(false)")),
        Err("Invalid permission string (No action/scope found)")
    );
    assert_eq!(
        Permission::parse(String::from("READ(|WRITE(equipment[1])|CREATE(true)")),
        Err("Invalid permission string (Missing id)")
    );
    assert_eq!(
        Permission::parse(String::from("READ()|WRITE(equipment[1])|CREATE(true)")),
        Err("Invalid permission string (Missing id)")
    );
    assert_eq!(
        Permission::parse(String::from("READ(equipment)|WRITE(equipment[1])|CREATE(true)")),
        Err("Invalid permission string (Missing id)")
    );
    assert_eq!(
        Permission::parse(String::from("READ(equipment[)|WRITE(equipment[1])|CREATE(true)")),
        Err("Invalid permission string (Missing id)")
    );
    assert_eq!(
        Permission::parse(String::from("READ(equipment[5])|WRITE(equipment[1],*)|CREATE(true)")),
        Err("Invalid permission string (Missing id)")
    );
    assert_eq!(
        Permission::parse(String::from("READ(equipment[1])|WRITE(equipment[1])|CREATE(foo)")),
        Err("Invalid permission string (Missing id)")
    );
    assert_eq!(
        Permission::parse(String::from("READ(equipment[])|WRITE(equipment[1])|CREATE(true)")),
        Err("Invalid permission string (Could not parse id)")
    );
    assert_eq!(
        Permission::parse(String::from(
            "READ(equipment[1],equipment[2],equipment[x],equipment[4])|WRITE(equipment[1])|CREATE(true)"
        )),
        Err("Invalid permission string (Could not parse id)")
    );
    assert_eq!(
        Permission::parse(String::from(
            "FOO(equipment[1],equipment[2],equipment[3])|WRITE(equipment[1])|CREATE(true)"
        )),
        Err("Invalid permission string (Unrecognized action)")
    );
    assert_eq!(
        Permission::parse(String::from(
            "READ(equipment[1],x[2],equipment[3])|WRITE(equipment[1])|CREATE(true)"
        )),
        Err("Invalid permission string (Unrecognized scope)")
    );
}

#[test]
fn get_query_select_test() {
    assert_eq!(
        Permission::Read(vec![Scope::Equipment(1), Scope::Equipment(2), Scope::Equipment(3)])
            .get_query_select("id"),
        String::from(" WHERE id IN (1,2,3)")
    );
    assert_eq!(
        Permission::Read(vec![Scope::Equipment(1), Scope::Equipment(2), Scope::Equipment(3)])
            .get_query_select("equipment"),
        String::from(" WHERE equipment IN (1,2,3)")
    );
    assert_eq!(
        Permission::Read(vec![Scope::Person(1), Scope::Person(2), Scope::Person(3)])
            .get_query_select("id"),
        String::from(" WHERE person IN (1,2,3)")
    );

    assert_eq!(
        Permission::Read(vec![Scope::Equipment(1), Scope::Equipment(2), Scope::Equipment(3)])
            .get_query_select("foo"),
        String::from(" WHERE id IN (1,2,3)")
    );

    assert_eq!(
        Permission::Read(vec![
            Scope::Equipment(1),
            Scope::Equipment(2),
            Scope::Person(666),
            Scope::Person(42)
        ])
        .get_query_select("id"),
        String::from(" WHERE id IN (1,2) AND person IN (666,42)")
    );
    assert_eq!(
        Permission::Read(vec![
            Scope::Person(666),
            Scope::Person(42),
            Scope::Equipment(1),
            Scope::Equipment(2)
        ])
        .get_query_select("equipment"),
        String::from(" WHERE equipment IN (1,2) AND person IN (666,42)")
    );
    assert_eq!(
        Permission::Read(vec![Scope::Person(1), Scope::Equipment(1)]).get_query_select("id"),
        String::from(" WHERE id IN (1) AND person IN (1)")
    );

    assert_eq!(
        Permission::Read(vec![
            Scope::Person(1),
            Scope::Equipment(1),
            Scope::Person(2),
            Scope::Equipment(2)
        ])
        .get_query_select("id"),
        String::from(" WHERE id IN (1,2) AND person IN (1,2)")
    );
}

#[test]
fn get_query_select_without_where_test() {
    assert_eq!(
        Permission::Read(vec![Scope::Equipment(1), Scope::Equipment(2), Scope::Equipment(3)])
            .get_query_select_without_where("id"),
        String::from(" AND id IN (1,2,3)"),
    );
}
