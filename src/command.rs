//! Parsing and carrying out one complete command against the record store.
//!
//! A command is a sequence of fields separated by `'\n'`; the first is the
//! verb. Every outcome, errors included, is a response text.

use vstd::prelude::*;
use vstd::string::*;
use crate::record::{display_user, UserView};
use crate::store::{matching, swap_remove, RecordStore, StoreView};
use crate::text::{
    debug_list, decimal, int_error_text, parse_uint, parse_uint_text, push_debug_list,
    push_decimal, push_int_error, split_lines, split_text_lines,
};

verus! {

/// The record that a well-formed `ADD` creates.
pub open spec fn new_user(st: StoreView, args: Seq<Seq<char>>, age: u32) -> UserView {
    UserView {
        id: st.next_id,
        surname: args[0],
        name: args[1],
        email: args[2],
        phone: args[3],
        age,
    }
}

/// The display lines of `found`, each followed by a newline.
pub open spec fn user_lines(found: Seq<UserView>) -> Seq<char>
    decreases found.len(),
{
    if found.len() == 0 {
        Seq::empty()
    } else {
        user_lines(found.drop_last()) + display_user(found.last()) + "\n"@
    }
}

/// The response to a search that found `found`.
pub open spec fn find_text(found: Seq<UserView>) -> Seq<char> {
    user_lines(found) + "Found "@ + decimal(found.len()) + " users"@
}

pub open spec fn wrong_count_text(expected: Seq<char>, args: Seq<Seq<char>>) -> Seq<char> {
    "Expected "@ + expected + ", but given `"@ + debug_list(args) + "`"@
}

/// `ADD` with its arguments: surname, name, e-mail, phone and age.
pub open spec fn execute_add(st: StoreView, args: Seq<Seq<char>>) -> (StoreView, Seq<char>) {
    if args.len() != 5 {
        (st, wrong_count_text("5 arguments"@, args))
    } else {
        match parse_uint(args[4], u32::MAX as nat) {
            Err(e) => (st, "Invalid age: "@ + int_error_text(e)),
            Ok(age) => if st.next_id == u64::MAX {
                (st, "No user ids left"@)
            } else {
                let u = new_user(st, args, age as u32);
                (StoreView { users: st.users.push(u), next_id: (st.next_id + 1) as u64 }, display_user(u))
            },
        }
    }
}

/// `DEL` with its argument: an id.
pub open spec fn execute_del(st: StoreView, args: Seq<Seq<char>>) -> (StoreView, Seq<char>) {
    if args.len() != 1 {
        (st, wrong_count_text("1 argument"@, args))
    } else {
        match parse_uint(args[0], u64::MAX as nat) {
            Err(e) => (st, "Invalid id given: "@ + int_error_text(e)),
            Ok(id) => if st.has_id(id as u64) {
                let i = st.index_of(id as u64);
                (StoreView { users: swap_remove(st.users, i), next_id: st.next_id },
                    "Removed: "@ + display_user(st.users[i]))
            } else {
                (st, "Matching user not found"@)
            },
        }
    }
}

/// `FIND` with its argument: a surname.
pub open spec fn execute_find(st: StoreView, args: Seq<Seq<char>>) -> (StoreView, Seq<char>) {
    if args.len() != 1 {
        (st, wrong_count_text("1 argument"@, args))
    } else {
        (st, find_text(matching(st.users, args[0])))
    }
}

/// The store after the command `cmd`, and its response.
pub open spec fn execute(st: StoreView, cmd: Seq<char>) -> (StoreView, Seq<char>) {
    if cmd.len() == 0 {
        (st, "Command is missing"@)
    } else {
        let parts = split_lines(cmd);
        let verb = parts[0];
        let args = parts.drop_first();
        if verb == "ADD"@ {
            execute_add(st, args)
        } else if verb == "DEL"@ {
            execute_del(st, args)
        } else if verb == "FIND"@ {
            execute_find(st, args)
        } else {
            (st, "Unknown command: `"@ + verb + "`"@)
        }
    }
}

fn push_wrong_count(out: &mut String, expected: &str, args: &Vec<String>)
    ensures
        final(out)@ == old(out)@ + wrong_count_text(expected@, args@.map_values(|a: String| a@)),
{
    let ghost start = out@;
    out.append("Expected ");
    out.append(expected);
    out.append(", but given `");
    push_debug_list(out, args.as_slice());
    out.append("`");
    assert(out@ =~= start + wrong_count_text(expected@, args@.map_values(|a: String| a@)));
}

fn run_add(store: &mut RecordStore, args: &Vec<String>) -> (r: String)
    requires
        old(store)@.wf(),
    ensures
        final(store)@.wf(),
        (final(store)@, r@) == execute_add(old(store)@, args@.map_values(|a: String| a@)),
{
    let ghost argv = args@.map_values(|a: String| a@);
    let mut out = String::new();
    if args.len() != 5 {
        push_wrong_count(&mut out, "5 arguments", args);
        assert(out@ =~= wrong_count_text("5 arguments"@, argv));
        return out;
    }
    match parse_uint_text(args[4].as_str(), u32::MAX as u64) {
        Err(e) => {
            out.append("Invalid age: ");
            push_int_error(&mut out, e);
            assert(out@ =~= "Invalid age: "@ + int_error_text(e));
            out
        },
        Ok(age) => {
            assert(argv[0] == args@[0]@ && argv[1] == args@[1]@ && argv[2] == args@[2]@);
            assert(argv[3] == args@[3]@ && argv[4] == args@[4]@);
            match store.insert(args[0].clone(), args[1].clone(), args[2].clone(), args[3].clone(), age as u32) {
                Some(user) => {
                    assert(user@ == new_user(old(store)@, argv, age as u32));
                    let r = user.to_string();
                    r
                },
                None => {
                    out.append("No user ids left");
                    assert(out@ =~= "No user ids left"@);
                    out
                },
            }
        },
    }
}

fn run_del(store: &mut RecordStore, args: &Vec<String>) -> (r: String)
    requires
        old(store)@.wf(),
    ensures
        final(store)@.wf(),
        (final(store)@, r@) == execute_del(old(store)@, args@.map_values(|a: String| a@)),
{
    let ghost argv = args@.map_values(|a: String| a@);
    let mut out = String::new();
    if args.len() != 1 {
        push_wrong_count(&mut out, "1 argument", args);
        assert(out@ =~= wrong_count_text("1 argument"@, argv));
        return out;
    }
    match parse_uint_text(args[0].as_str(), u64::MAX) {
        Err(e) => {
            out.append("Invalid id given: ");
            push_int_error(&mut out, e);
            assert(out@ =~= "Invalid id given: "@ + int_error_text(e));
            out
        },
        Ok(id) => {
            match store.remove_by_id(id) {
                Some(user) => {
                    out.append("Removed: ");
                    user.push_display(&mut out);
                    assert(out@ =~= "Removed: "@ + display_user(user@));
                    out
                },
                None => {
                    out.append("Matching user not found");
                    assert(out@ =~= "Matching user not found"@);
                    out
                },
            }
        },
    }
}

fn run_find(store: &RecordStore, args: &Vec<String>) -> (r: String)
    ensures
        (store@, r@) == execute_find(store@, args@.map_values(|a: String| a@)),
{
    let ghost argv = args@.map_values(|a: String| a@);
    let mut out = String::new();
    if args.len() != 1 {
        push_wrong_count(&mut out, "1 argument", args);
        assert(out@ =~= wrong_count_text("1 argument"@, argv));
        return out;
    }
    let found = store.find_by_surname(&args[0]);
    let ghost fv = found@.map_values(|u: &crate::record::User| u@);
    let mut i: usize = 0;
    while i < found.len()
        invariant
            i <= found@.len(),
            fv == found@.map_values(|u: &crate::record::User| u@),
            out@ == user_lines(fv.subrange(0, i as int)),
        decreases found.len() - i,
    {
        assert(fv.subrange(0, i + 1).drop_last() =~= fv.subrange(0, i as int));
        found[i].push_display(&mut out);
        out.append("\n");
        i = i + 1;
        assert(out@ =~= user_lines(fv.subrange(0, i as int)));
    }
    assert(fv.subrange(0, found@.len() as int) =~= fv);
    out.append("Found ");
    push_decimal(&mut out, found.len() as u64);
    out.append(" users");
    assert(out@ =~= find_text(fv));
    out
}

/// Carries out the command `cmd` on `store` and returns its response.
pub fn handle_command(store: &mut RecordStore, cmd: &str) -> (r: String)
    requires
        old(store)@.wf(),
    ensures
        final(store)@.wf(),
        (final(store)@, r@) == execute(old(store)@, cmd@),
{
    if cmd.unicode_len() == 0 {
        let mut out = String::new();
        out.append("Command is missing");
        assert(out@ =~= "Command is missing"@);
        return out;
    }
    let mut parts = split_text_lines(cmd);
    let ghost pv = split_lines(cmd@);
    proof { crate::text::lemma_split_lines_nonempty(cmd@); }
    let verb = parts.remove(0);
    assert(parts@.map_values(|a: String| a@) =~= pv.drop_first());
    if verb == "ADD".to_owned() {
        run_add(store, &parts)
    } else if verb == "DEL".to_owned() {
        run_del(store, &parts)
    } else if verb == "FIND".to_owned() {
        run_find(store, &parts)
    } else {
        let mut out = String::new();
        out.append("Unknown command: `");
        out.append(verb.as_str());
        out.append("`");
        assert(out@ =~= "Unknown command: `"@ + pv[0] + "`"@);
        out
    }
}


/// The record that `cmd` adds to `st`, if it is an `ADD` that succeeds.
pub open spec fn added_user(st: StoreView, cmd: Seq<char>) -> Option<UserView> {
    let parts = split_lines(cmd);
    if cmd.len() != 0 && parts[0] == "ADD"@ && parts.len() == 6
        && parse_uint(parts[5], u32::MAX as nat) is Ok && st.next_id != u64::MAX {
        Some(new_user(st, parts.drop_first(), parse_uint(parts[5], u32::MAX as nat)->Ok_0 as u32))
    } else {
        None
    }
}

/// The store after the commands `cmds`, in order.
pub open spec fn run(st: StoreView, cmds: Seq<Seq<char>>) -> StoreView
    decreases cmds.len(),
{
    if cmds.len() == 0 {
        st
    } else {
        execute(run(st, cmds.drop_last()), cmds.last()).0
    }
}

/// The ids of the records that the successful `ADD`s among `cmds` create,
/// in order.
pub open spec fn created_ids(st: StoreView, cmds: Seq<Seq<char>>) -> Seq<u64>
    decreases cmds.len(),
{
    if cmds.len() == 0 {
        Seq::empty()
    } else {
        let prev = created_ids(st, cmds.drop_last());
        match added_user(run(st, cmds.drop_last()), cmds.last()) {
            Some(u) => prev.push(u.id),
            None => prev,
        }
    }
}

/// The three verbs are distinct texts.
pub proof fn lemma_verbs_differ()
    ensures
        "ADD"@ != "DEL"@,
        "ADD"@ != "FIND"@,
        "DEL"@ != "FIND"@,
{
    reveal_strlit("ADD");
    reveal_strlit("DEL");
    reveal_strlit("FIND");
    assert("ADD"@[0] != "DEL"@[0]);
    assert("ADD"@.len() != "FIND"@.len());
    assert("DEL"@.len() != "FIND"@.len());
}

/// A command moves the id counter by one exactly when it adds a record,
/// and that record is the last one of the store.
pub proof fn lemma_execute_counter(st: StoreView, cmd: Seq<char>)
    ensures
        added_user(st, cmd) matches Some(u) ==> {
            &&& execute(st, cmd).0.next_id == st.next_id + 1
            &&& execute(st, cmd).0.users == st.users.push(u)
            &&& u.id == st.next_id
        },
        added_user(st, cmd) is None ==> execute(st, cmd).0.next_id == st.next_id,
{
    lemma_verbs_differ();
    crate::text::lemma_split_lines_nonempty(cmd);
}

/// Starting from the empty store, whatever commands come between them, the
/// n-th successful `ADD` creates the record with id n - 1, and the counter
/// stands at the number of successful `ADD`s.
pub proof fn lemma_ids_follow_successful_adds(cmds: Seq<Seq<char>>)
    ensures
        run(crate::store::empty_store(), cmds).next_id == created_ids(crate::store::empty_store(), cmds).len(),
        forall|i: int| 0 <= i < created_ids(crate::store::empty_store(), cmds).len()
            ==> #[trigger] created_ids(crate::store::empty_store(), cmds)[i] == i,
    decreases cmds.len(),
{
    let e = crate::store::empty_store();
    if cmds.len() > 0 {
        lemma_ids_follow_successful_adds(cmds.drop_last());
        lemma_execute_counter(run(e, cmds.drop_last()), cmds.last());
    }
}

/// The response to a `DEL` of an id that no record holds is "Matching user
/// not found", and the store stays as it was.
pub proof fn lemma_del_absent(st: StoreView, cmd: Seq<char>, id_text: Seq<char>)
    requires
        split_lines(cmd) == seq!["DEL"@, id_text],
        parse_uint(id_text, u64::MAX as nat) matches Ok(id) && !st.has_id(id as u64),
    ensures
        execute(st, cmd) == (st, "Matching user not found"@),
{
    assert(split_lines(cmd).drop_first() =~= seq![id_text]);
    if cmd.len() == 0 {
        assert(split_lines(cmd) == seq![Seq::<char>::empty()]);
    }
    lemma_verbs_differ();
}

/// Issuing the same `DEL` twice: the second one responds "Matching user not
/// found" and changes nothing.
pub proof fn lemma_del_twice(st: StoreView, cmd: Seq<char>, id_text: Seq<char>)
    requires
        st.wf(),
        split_lines(cmd) == seq!["DEL"@, id_text],
        parse_uint(id_text, u64::MAX as nat) is Ok,
    ensures
        ({
            let after = execute(st, cmd).0;
            execute(after, cmd) == (after, "Matching user not found"@)
        }),
{
    let id = parse_uint(id_text, u64::MAX as nat)->Ok_0 as u64;
    assert(split_lines(cmd).drop_first() =~= seq![id_text]);
    if cmd.len() == 0 {
        assert(split_lines(cmd) == seq![Seq::<char>::empty()]);
    }
    lemma_verbs_differ();
    let after = execute(st, cmd).0;
    if st.has_id(id) {
        let i = st.index_of(id);
        let last = st.users.len() - 1;
        assert(after.users == swap_remove(st.users, i));
        assert forall|k: int| 0 <= k < after.users.len() implies #[trigger] after.users[k].id != id by {
            let src = if k == i { last } else { k };
            assert(after.users[k] == st.users[src]);
            if src < i {
                assert(st.users[src].id != st.users[i].id);
            } else if src > i {
                assert(st.users[i].id != st.users[src].id);
            }
        }
    }
    lemma_del_absent(after, cmd, id_text);
}

/// `matching` keeps exactly the records whose surname is `q`.
pub proof fn lemma_matching_members(users: Seq<UserView>, q: Seq<char>)
    ensures
        forall|u: UserView| #[trigger] matching(users, q).contains(u) <==> users.contains(u) && u.surname == q,
    decreases users.len(),
{
    if users.len() > 0 {
        let init = users.drop_last();
        let last = users.last();
        let m = matching(init, q);
        lemma_matching_members(init, q);
        assert(matching(users, q) == if last.surname == q { m.push(last) } else { m });
        assert forall|u: UserView| #[trigger] matching(users, q).contains(u) <==> users.contains(u) && u.surname == q by {
            if matching(users, q).contains(u) {
                if m.contains(u) {
                    let k = choose|k: int| 0 <= k < init.len() && init[k] == u;
                    assert(users[k] == u);
                } else {
                    assert(last.surname == q);
                    let k = choose|k: int| 0 <= k < m.push(last).len() && m.push(last)[k] == u;
                    assert(k == m.len());
                    assert(users[users.len() - 1] == u);
                }
            }
            if users.contains(u) && u.surname == q {
                let k = choose|k: int| 0 <= k < users.len() && users[k] == u;
                if k < users.len() - 1 {
                    assert(init[k] == u);
                    assert(init.contains(u));
                    assert(m.contains(u));
                    let j = choose|j: int| 0 <= j < m.len() && m[j] == u;
                    if last.surname == q {
                        assert(m.push(last)[j] == u);
                        assert(m.push(last).contains(u));
                    }
                } else {
                    assert(m.push(last)[m.len() as int] == u);
                }
            }
        }
    }
}

/// `FIND` responds with the display line of each record whose surname is
/// exactly the query, in store order, then the count of them; those are
/// exactly the present records with that surname. The store is unchanged.
pub proof fn lemma_find_exact(st: StoreView, cmd: Seq<char>, q: Seq<char>)
    requires
        split_lines(cmd) == seq!["FIND"@, q],
    ensures
        execute(st, cmd) == (st, find_text(matching(st.users, q))),
        forall|u: UserView| #[trigger] matching(st.users, q).contains(u) <==> st.users.contains(u) && u.surname == q,
{
    assert(split_lines(cmd).drop_first() =~= seq![q]);
    if cmd.len() == 0 {
        assert(split_lines(cmd) == seq![Seq::<char>::empty()]);
    }
    lemma_verbs_differ();
    lemma_matching_members(st.users, q);
}

} // verus!
