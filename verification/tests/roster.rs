use irssi_tg::roster::{names_of, roster, Member};

fn s(x: &str) -> String {
    x.to_string()
}

#[test]
fn members_have_names() {
    let v = vec![
        Member { first_name: Some(s("Ann")), username: Some(s("a")) },
        Member { first_name: None, username: Some(s("bob")) },
        Member { first_name: None, username: None },
    ];
    assert_eq!(names_of(&v, 200), vec!["Ann", "bob", "Unknown"]);
    assert_eq!(names_of(&v, 2), vec!["Ann", "bob"]);
    assert_eq!(names_of(&v, 0), Vec::<String>::new());
}

#[test]
fn members_are_listed_in_columns() {
    let names: Vec<String> = (0..7).map(|i| format!("n{}", i)).collect();
    let out = roster("Dev", &names);
    assert_eq!(
        out,
        vec![
            s("-!- Dev (7 users):"),
            format!("    {:<12}{:<12}{:<12}{:<12}{:<12}n5", "n0", "n1", "n2", "n3", "n4"),
            s("    n6"),
            s("-!- Total: 7 users  (Tab after @ to mention)"),
        ]
    );
}

#[test]
fn wide_names_get_wide_columns() {
    let names = vec![s("abcdefghijklmnopqrstuvwxyz0123456789"), s("b"), s("c")];
    let out = roster("X", &names);
    assert_eq!(out.len(), 4);
    assert_eq!(out[1], format!("    {}b", names[0]));
    assert_eq!(out[2], "    c");
    let names = vec![s("aaaaaaaaaaaaaaaa"), s("b"), s("c"), s("d"), s("e")];
    let out = roster("X", &names);
    assert_eq!(out[1], format!("    {:<18}{:<18}{:<18}d", names[0], "b", "c"));
    assert_eq!(out[2], "    e");
}

#[test]
fn an_empty_chat_has_an_empty_list() {
    assert_eq!(
        roster("X", &Vec::new()),
        vec!["-!- X (0 users):", "-!- Total: 0 users  (Tab after @ to mention)"]
    );
}
