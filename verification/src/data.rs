//! The credential record, its equality and default value, and the restricted
//! projection that observers such as loggers and tracers are given.

use crate::text::{clone_text, text};
use std::borrow::Cow;
use vstd::prelude::*;
use vstd::std_specs::cmp::PartialEqSpec;

verus! {

/// Mathematical value of a [`Data`] record: five texts.
pub struct DataView {
    pub base: Seq<char>,
    pub client_id: Seq<char>,
    pub client_secret: Seq<char>,
    pub redirect: Seq<char>,
    pub token: Seq<char>,
}

/// Raw data about an application registered with a service instance. Keep it
/// in persistent storage to avoid authenticating on every run.
#[derive(Debug)]
pub struct Data {
    /// Base url of the instance, e.g. `https://botsin.space`.
    pub base: Cow<'static, str>,
    /// The client's id given by the instance.
    pub client_id: Cow<'static, str>,
    /// The client's secret given by the instance.
    pub client_secret: Cow<'static, str>,
    /// Url to redirect back to the application from the instance signup.
    pub redirect: Cow<'static, str>,
    /// The client's access token.
    pub token: Cow<'static, str>,
}

impl View for Data {
    type V = DataView;

    open spec fn view(&self) -> DataView {
        DataView {
            base: self.base@,
            client_id: self.client_id@,
            client_secret: self.client_secret@,
            redirect: self.redirect@,
            token: self.token@,
        }
    }
}

/// Whether `d` holds no text of its own: each field refers to a static string.
pub open spec fn all_borrowed(d: Data) -> bool {
    d.base is Borrowed && d.client_id is Borrowed && d.client_secret is Borrowed
        && d.redirect is Borrowed && d.token is Borrowed
}

/// The record whose five fields are all empty.
pub open spec fn empty_record() -> DataView {
    DataView {
        base: Seq::empty(),
        client_id: Seq::empty(),
        client_secret: Seq::empty(),
        redirect: Seq::empty(),
        token: Seq::empty(),
    }
}

/// The one list of the fields that observers may see. Both the list of names
/// and the projection are taken from it, so the two cannot drift apart.
pub const EXPOSED_FIELDS: [&'static str; 3] = ["base", "client_id", "redirect"];

/// The names of the fields that observers may see, in the order in which they
/// are shown. The secrets, `client_secret` and `token`, are not among them.
pub open spec fn exposed_names() -> Seq<Seq<char>> {
    seq!["base"@, "client_id"@, "redirect"@]
}

/// The values of the exposed fields of `v`, in the order of [`exposed_names`].
pub open spec fn exposed_values(v: DataView) -> Seq<Seq<char>> {
    seq![v.base, v.client_id, v.redirect]
}

/// What observers are shown of `v`: each exposed name with the field's value.
pub open spec fn projection(v: DataView) -> Seq<(Seq<char>, Seq<char>)> {
    Seq::new(exposed_names().len(), |i: int| (exposed_names()[i], exposed_values(v)[i]))
}

/// The texts of a list of names.
pub open spec fn names_of(names: Seq<&'static str>) -> Seq<Seq<char>> {
    Seq::new(names.len(), |i: int| names[i]@)
}

/// The texts of a list of pairs of a name and a value.
pub open spec fn entries_of(entries: Seq<(&'static str, &str)>) -> Seq<(Seq<char>, Seq<char>)> {
    Seq::new(entries.len(), |i: int| (entries[i].0@, entries[i].1@))
}

impl Default for Data {
    /// The record before authentication: every field is the empty string.
    fn default() -> (r: Data)
        ensures
            r@ == empty_record(),
            all_borrowed(r),
    {
        proof {
            reveal_strlit("");
        }
        let r = Data {
            base: Cow::Borrowed(""),
            client_id: Cow::Borrowed(""),
            client_secret: Cow::Borrowed(""),
            redirect: Cow::Borrowed(""),
            token: Cow::Borrowed(""),
        };
        assert(r@.base =~= Seq::empty());
        r
    }
}

impl Clone for Data {
    /// A copy of the record. Fields that refer to static strings are not
    /// copied: the copy refers to the same strings.
    fn clone(&self) -> (r: Data)
        ensures
            r@ == self@,
            r.base is Borrowed <==> self.base is Borrowed,
            r.client_id is Borrowed <==> self.client_id is Borrowed,
            r.client_secret is Borrowed <==> self.client_secret is Borrowed,
            r.redirect is Borrowed <==> self.redirect is Borrowed,
            r.token is Borrowed <==> self.token is Borrowed,
    {
        Data {
            base: clone_text(&self.base),
            client_id: clone_text(&self.client_id),
            client_secret: clone_text(&self.client_secret),
            redirect: clone_text(&self.redirect),
            token: clone_text(&self.token),
        }
    }
}

impl PartialEq for Data {
    fn eq(&self, other: &Data) -> (r: bool) {
        *text(&self.base) == *text(&other.base)
            && *text(&self.client_id) == *text(&other.client_id)
            && *text(&self.client_secret) == *text(&other.client_secret)
            && *text(&self.redirect) == *text(&other.redirect)
            && *text(&self.token) == *text(&other.token)
    }
}

impl vstd::std_specs::cmp::PartialEqSpecImpl for Data {
    open spec fn obeys_eq_spec() -> bool {
        true
    }

    open spec fn eq_spec(&self, other: &Data) -> bool {
        self.base@ == other.base@
            && self.client_id@ == other.client_id@
            && self.client_secret@ == other.client_secret@
            && self.redirect@ == other.redirect@
            && self.token@ == other.token@
    }
}

impl Eq for Data {

}

impl Data {
    /// The names of the fields that [`Data::project`] shows. The list belongs
    /// to the type: it is the same for every record.
    pub fn describe() -> (names: Vec<&'static str>)
        ensures
            names_of(names@) == exposed_names(),
    {
        let list = EXPOSED_FIELDS;
        let names: Vec<&'static str> = vec![list[0], list[1], list[2]];
        assert(names_of(names@) =~= exposed_names());
        names
    }

    /// The exposed fields of the record, each as its name and its current
    /// value, in the order of [`Data::describe`]. The values are borrowed from
    /// the record; `client_secret` and `token` are never read.
    pub fn project(&self) -> (entries: Vec<(&'static str, &str)>)
        ensures
            entries_of(entries@) == projection(self@),
    {
        let names = Self::describe();
        assert(names_of(names@).len() == 3);
        assert(names_of(names@)[0] == names@[0]@);
        assert(names_of(names@)[1] == names@[1]@);
        assert(names_of(names@)[2] == names@[2]@);
        let mut entries: Vec<(&'static str, &str)> = Vec::new();
        entries.push((names[0], text(&self.base)));
        entries.push((names[1], text(&self.client_id)));
        entries.push((names[2], text(&self.redirect)));
        assert(entries_of(entries@) =~= projection(self@));
        entries
    }
}

/// How many of the five fields of `a` and `b` hold different texts.
pub open spec fn differing_fields(a: DataView, b: DataView) -> nat {
    let n0: nat = if a.base == b.base { 0 } else { 1 };
    let n1: nat = if a.client_id == b.client_id { 0 } else { 1 };
    let n2: nat = if a.client_secret == b.client_secret { 0 } else { 1 };
    let n3: nat = if a.redirect == b.redirect { 0 } else { 1 };
    let n4: nat = if a.token == b.token { 0 } else { 1 };
    n0 + n1 + n2 + n3 + n4
}

/// Equality is structural: two records are equal exactly when each field of
/// one holds the same text as that field of the other, whether the text is
/// borrowed or owned.
pub proof fn equality_is_structural(a: Data, b: Data)
    ensures
        a.eq_spec(&b) <==> a@ == b@,
        a.eq_spec(&a),
        a.eq_spec(&b) <==> b.eq_spec(&a),
{
}

/// Two records that differ in exactly one field are not equal, however small
/// the difference in that field is.
pub proof fn one_differing_field_breaks_equality(a: Data, b: Data)
    requires
        differing_fields(a@, b@) == 1,
    ensures
        !a.eq_spec(&b),
{
}

/// A record whose fields are all empty is equal to itself and to every other
/// such record.
pub proof fn empty_records_are_equal(a: Data, b: Data)
    requires
        a@ == empty_record(),
        b@ == empty_record(),
    ensures
        a.eq_spec(&a),
        a.eq_spec(&b),
{
}

/// The projection of a record has exactly three entries: `base`, `client_id`
/// and `redirect`, in this order, each with the field's value. Neither secret
/// field is named in it.
pub proof fn projection_is_the_three_exposed_fields(v: DataView)
    ensures
        projection(v) == seq![
            ("base"@, v.base),
            ("client_id"@, v.client_id),
            ("redirect"@, v.redirect),
        ],
        forall|i: int|
            0 <= i < projection(v).len() ==> (#[trigger] projection(v)[i]).0 != "client_secret"@
                && projection(v)[i].0 != "token"@,
{
    reveal_strlit("base");
    reveal_strlit("client_id");
    reveal_strlit("redirect");
    reveal_strlit("client_secret");
    reveal_strlit("token");
    assert(projection(v) =~= seq![
        ("base"@, v.base),
        ("client_id"@, v.client_id),
        ("redirect"@, v.redirect),
    ]);
    assert("base"@.len() == 4);
    assert("client_id"@.len() == 9);
    assert("redirect"@.len() == 8);
    assert("client_secret"@.len() == 13);
    assert("token"@.len() == 5);
}

/// The projection does not depend on the secrets: records that agree on
/// `base`, `client_id` and `redirect` have the same projection, whatever
/// their `client_secret` and `token` hold.
pub proof fn projection_ignores_secrets(a: DataView, b: DataView)
    requires
        a.base == b.base,
        a.client_id == b.client_id,
        a.redirect == b.redirect,
    ensures
        projection(a) == projection(b),
{
    assert(projection(a) =~= projection(b));
}

/// The names in the projection of any record are the described names, in the
/// same order.
pub proof fn projection_names_are_described(v: DataView)
    ensures
        projection(v).len() == exposed_names().len(),
        forall|i: int|
            0 <= i < exposed_names().len() ==> (#[trigger] projection(v)[i]).0 == exposed_names()[i],
{
}

} // verus!
