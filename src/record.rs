//! Phone-book records and their display form.

use vstd::prelude::*;
use vstd::string::*;
use crate::text::{decimal, push_decimal};

verus! {

/// One phone-book entry. Immutable once created.
#[derive(Debug)]
pub struct User {
    pub id: u64,
    pub name: String,
    pub surname: String,
    pub email: String,
    pub phone: String,
    pub age: u32,
}

/// The mathematical value of a `User`.
pub struct UserView {
    pub id: u64,
    pub name: Seq<char>,
    pub surname: Seq<char>,
    pub email: Seq<char>,
    pub phone: Seq<char>,
    pub age: u32,
}

impl View for User {
    type V = UserView;

    open spec fn view(&self) -> UserView {
        UserView {
            id: self.id,
            name: self.name@,
            surname: self.surname@,
            email: self.email@,
            phone: self.phone@,
            age: self.age,
        }
    }
}

/// `User#<id>: <surname> <name>, <age> y.o. (<phone>)`; the e-mail address
/// is never shown.
pub open spec fn display_user(u: UserView) -> Seq<char> {
    "User#"@ + decimal(u.id as nat) + ": "@ + u.surname + " "@ + u.name + ", "@
        + decimal(u.age as nat) + " y.o. ("@ + u.phone + ")"@
}

impl User {
    /// Appends the display form of this record to `out`.
    pub fn push_display(&self, out: &mut String)
        ensures
            final(out)@ == old(out)@ + display_user(self@),
    {
        let ghost start = out@;
        out.append("User#");
        push_decimal(out, self.id);
        out.append(": ");
        out.append(self.surname.as_str());
        out.append(" ");
        out.append(self.name.as_str());
        out.append(", ");
        push_decimal(out, self.age as u64);
        out.append(" y.o. (");
        out.append(self.phone.as_str());
        out.append(")");
        assert(out@ =~= start + display_user(self@));
    }

    /// The display form of this record.
    pub fn to_string(&self) -> (r: String)
        ensures
            r@ == display_user(self@),
    {
        let mut out = String::new();
        self.push_display(&mut out);
        assert(out@ =~= display_user(self@));
        out
    }
}

} // verus!
