//! JSON documents as plain values.

use serde_json::{Number, Value};
use vstd::prelude::*;

use crate::text;

verus! {

/// A number as `serde_json` holds it. It is only carried.
#[verifier::external_type_specification]
#[verifier::external_body]
pub struct ExNumber(serde_json::Number);

/// A JSON value. An object keeps its members in a list.
pub enum Json {
    Null,
    Bool(bool),
    Num(Number),
    Str(String),
    Arr(Vec<Json>),
    Obj(Vec<(String, Json)>),
}

/// What a JSON value says.
#[verifier::ext_equal]
pub enum Tree {
    Null,
    Bool(bool),
    Num(Number),
    Str(Seq<char>),
    Arr(Seq<Tree>),
    Obj(Seq<(Seq<char>, Tree)>),
}

impl Json {
    /// What this value says.
    pub open spec fn tree(self) -> Tree
        decreases self,
    {
        match self {
            Json::Null => Tree::Null,
            Json::Bool(b) => Tree::Bool(b),
            Json::Num(n) => Tree::Num(n),
            Json::Str(s) => Tree::Str(s@),
            Json::Arr(a) => Tree::Arr(
                Seq::new(
                    a@.len(),
                    |i: int|
                        if 0 <= i < a@.len() {
                            a@[i].tree()
                        } else {
                            Tree::Null
                        },
                ),
            ),
            Json::Obj(m) => Tree::Obj(
                Seq::new(
                    m@.len(),
                    |i: int|
                        if 0 <= i < m@.len() {
                            (m@[i].0@, m@[i].1.tree())
                        } else {
                            (seq![], Tree::Null)
                        },
                ),
            ),
        }
    }
}

/// What the items of a list say.
pub open spec fn items(a: Seq<Json>) -> Seq<Tree> {
    a.map_values(|v: Json| v.tree())
}

/// What the members of an object say.
pub open spec fn members(m: Seq<(String, Json)>) -> Seq<(Seq<char>, Tree)> {
    m.map_values(|e: (String, Json)| (e.0@, e.1.tree()))
}

/// A list says what its items say, an object what its members say.
pub proof fn lemma_tree(v: Json)
    ensures
        v matches Json::Arr(a) ==> v.tree() == Tree::Arr(items(a@)),
        v matches Json::Obj(m) ==> v.tree() == Tree::Obj(members(m@)),
{
    match v {
        Json::Arr(a) => {
            assert(v.tree()->Arr_0 =~= items(a@));
        },
        Json::Obj(m) => {
            assert(v.tree()->Obj_0 =~= members(m@));
        },
        _ => {},
    }
}

// ───────────────────────── reading documents ─────────────────────────

/// A document as `serde_json` holds it.
#[verifier::external_type_specification]
#[verifier::external_body]
pub struct ExValue(serde_json::Value);

/// What a `serde_json::Value` holds.
pub uninterp spec fn held(v: Value) -> Tree;

/// What `serde_json::from_str` makes of a text: what the document says, or the words of the
/// error.
pub uninterp spec fn json_read(text: Seq<char>) -> Result<Tree, Seq<char>>;

/// `serde_json::from_str::<serde_json::Value>`. What is claimed: the outcome depends on the
/// text alone.
#[verifier::external_body]
fn read_value(text: &str) -> (r: Result<Value, String>)
    ensures
        json_read(text@) == (match r {
            Ok(v) => Ok::<Tree, Seq<char>>(held(v)),
            Err(e) => Err::<Tree, Seq<char>>(e@),
        }),
{
    serde_json::from_str::<Value>(text).map_err(|e| e.to_string())
}

/// The outermost layer of a document.
pub enum Layer<'a> {
    Null,
    Bool(bool),
    Num(&'a Number),
    Str(&'a String),
    Arr(&'a Vec<Value>),
    Obj(Vec<(&'a String, &'a Value)>),
}

/// What the layers of a document say together.
pub open spec fn layered(l: Layer) -> Tree {
    match l {
        Layer::Null => Tree::Null,
        Layer::Bool(b) => Tree::Bool(b),
        Layer::Num(n) => Tree::Num(*n),
        Layer::Str(s) => Tree::Str(s@),
        Layer::Arr(a) => Tree::Arr(a@.map_values(|v: Value| held(v))),
        Layer::Obj(m) => Tree::Obj(m@.map_values(|e: (&String, &Value)| (e.0@, held(*e.1)))),
    }
}

/// The variants of `serde_json::Value`, with the items of a list and the members of an object
/// in the order in which it keeps them. No two members of an object have the same name.
#[verifier::external_body]
fn layer_of(v: &Value) -> (r: Layer<'_>)
    ensures
        layered(r) == held(*v),
        r matches Layer::Obj(_) ==> names_differ(layered(r)->Obj_0),
{
    match v {
        Value::Null => Layer::Null,
        Value::Bool(b) => Layer::Bool(*b),
        Value::Number(n) => Layer::Num(n),
        Value::String(s) => Layer::Str(s),
        Value::Array(a) => Layer::Arr(a),
        Value::Object(m) => Layer::Obj(m.iter().collect()),
    }
}

/// `Clone` of `serde_json::Number`: the same number.
#[verifier::external_body]
fn number_copy(n: &Number) -> (r: Number)
    ensures
        r == *n,
{
    n.clone()
}

/// No two members have the same name.
pub open spec fn names_differ(m: Seq<(Seq<char>, Tree)>) -> bool {
    forall|i: int, j: int| 0 <= i < j < m.len() ==> (#[trigger] m[i]).0 != (#[trigger] m[j]).0
}

/// Nowhere in a document do two members of an object have the same name.
pub open spec fn well_named(t: Tree) -> bool
    decreases t,
{
    match t {
        Tree::Arr(a) => forall|i: int| 0 <= i < a.len() ==> well_named(#[trigger] a[i]),
        Tree::Obj(m) => names_differ(m) && forall|i: int|
            0 <= i < m.len() ==> well_named((#[trigger] m[i]).1),
        _ => true,
    }
}

/// A document as a plain value.
fn taken(v: &Value) -> (r: Json)
    ensures
        r.tree() == held(*v),
        well_named(held(*v)),
    decreases held(*v),
{
    match layer_of(v) {
        Layer::Null => Json::Null,
        Layer::Bool(b) => Json::Bool(b),
        Layer::Num(n) => Json::Num(number_copy(n)),
        Layer::Str(s) => Json::Str(text::copy(s.as_str())),
        Layer::Arr(a) => {
            let ghost all = a@.map_values(|x: Value| held(x));
            let mut out: Vec<Json> = Vec::new();
            let mut i: usize = 0;
            while i < a.len()
                invariant
                    i <= a.len(),
                    all == a@.map_values(|x: Value| held(x)),
                    held(*v) == Tree::Arr(all),
                    items(out@) == all.take(i as int),
                    forall|k: int| 0 <= k < i ==> well_named(#[trigger] all[k]),
                decreases a.len() - i,
            {
                assert(all[i as int] == held(a@[i as int]));
                assert(decreases_to!(held(*v) => held(*v)->Arr_0[i as int]));
                let ghost before = out@;
                out.push(taken(&a[i]));
                i = i + 1;
                assert(items(out@) =~= items(before).push(all[i - 1]));
                assert(all.take(i as int) =~= all.take(i - 1).push(all[i - 1]));
            }
            assert(all.take(i as int) =~= all);
            let r = Json::Arr(out);
            proof {
                lemma_tree(r);
            }
            r
        },
        Layer::Obj(m) => {
            let ghost all = m@.map_values(|e: (&String, &Value)| (e.0@, held(*e.1)));
            let mut out: Vec<(String, Json)> = Vec::new();
            let mut i: usize = 0;
            while i < m.len()
                invariant
                    i <= m.len(),
                    all == m@.map_values(|e: (&String, &Value)| (e.0@, held(*e.1))),
                    held(*v) == Tree::Obj(all),
                    members(out@) == all.take(i as int),
                    forall|k: int| 0 <= k < i ==> well_named((#[trigger] all[k]).1),
                decreases m.len() - i,
            {
                let (k, x) = m[i];
                assert(all[i as int] == (k@, held(*x)));
                assert(decreases_to!(held(*v) => held(*v)->Obj_0[i as int].1));
                let ghost before = out@;
                out.push((text::copy(k.as_str()), taken(x)));
                i = i + 1;
                assert(members(out@) =~= members(before).push(all[i - 1]));
                assert(all.take(i as int) =~= all.take(i - 1).push(all[i - 1]));
            }
            assert(all.take(i as int) =~= all);
            let r = Json::Obj(out);
            proof {
                lemma_tree(r);
            }
            r
        },
    }
}

/// The document that a text is, or the words of the error.
pub(crate) fn parse_json(text: &str) -> (r: Result<Json, String>)
    ensures
        r matches Ok(v) ==> well_named(v.tree()),
        json_read(text@) == (match r {
            Ok(v) => Ok::<Tree, Seq<char>>(v.tree()),
            Err(e) => Err::<Tree, Seq<char>>(e@),
        }),
{
    match read_value(text) {
        Ok(v) => Ok(taken(&v)),
        Err(e) => Err(e),
    }
}

// ───────────────────────── members ─────────────────────────

/// The position of the first member called `key`, from `from` on.
pub open spec fn member_from(m: Seq<(Seq<char>, Tree)>, key: Seq<char>, from: int) -> Option<int>
    decreases m.len() - from,
{
    if from < 0 || from >= m.len() {
        None
    } else if m[from].0 == key {
        Some(from)
    } else {
        member_from(m, key, from + 1)
    }
}

/// The position of the first member called `key`.
pub open spec fn member(m: Seq<(Seq<char>, Tree)>, key: Seq<char>) -> Option<int> {
    member_from(m, key, 0)
}

/// What `member_from` means: the least position, if there is one.
pub proof fn lemma_member_from(m: Seq<(Seq<char>, Tree)>, key: Seq<char>, from: int)
    requires
        0 <= from,
    ensures
        member_from(m, key, from) matches Some(i) ==> from <= i < m.len() && m[i].0 == key && (
        forall|j: int| from <= j < i ==> (#[trigger] m[j]).0 != key),
        member_from(m, key, from) is None ==> forall|j: int|
            from <= j < m.len() ==> (#[trigger] m[j]).0 != key,
    decreases m.len() - from,
{
    if from < m.len() && m[from].0 != key {
        lemma_member_from(m, key, from + 1);
    }
}

/// The member of an object, if the value is an object that has it.
pub open spec fn get(v: Tree, key: Seq<char>) -> Option<Tree> {
    match v {
        Tree::Obj(m) => match member(m, key) {
            Some(i) => Some(m[i].1),
            None => None,
        },
        _ => None,
    }
}

/// The member of a value that may be missing.
pub open spec fn get_in(v: Option<Tree>, key: Seq<char>) -> Option<Tree> {
    match v {
        Some(t) => get(t, key),
        None => None,
    }
}

/// The text of a JSON string.
pub open spec fn str_of(v: Option<Tree>) -> Option<Seq<char>> {
    match v {
        Some(Tree::Str(s)) => Some(s),
        _ => None,
    }
}

/// The truth value of a JSON boolean.
pub open spec fn bool_of(v: Option<Tree>) -> Option<bool> {
    match v {
        Some(Tree::Bool(b)) => Some(b),
        _ => None,
    }
}

/// What a value that may be missing says.
pub open spec fn said(v: Option<&Json>) -> Option<Tree> {
    match v {
        Some(j) => Some(j.tree()),
        None => None,
    }
}

/// The position of the first member called `key`.
pub fn find_member(m: &Vec<(String, Json)>, key: &str) -> (r: Option<usize>)
    ensures
        r matches Some(i) ==> i < m.len() && member(members(m@), key@) == Some(i as int),
        r is None <==> member(members(m@), key@) is None,
{
    let mut i: usize = 0;
    while i < m.len()
        invariant
            i <= m.len(),
            member(members(m@), key@) == member_from(members(m@), key@, i as int),
        decreases m.len() - i,
    {
        assert(members(m@)[i as int].0 == m@[i as int].0@);
        if text::same(m[i].0.as_str(), key) {
            return Some(i);
        }
        i = i + 1;
    }
    None
}

impl Json {
    /// The member of an object, if this is an object that has it.
    pub fn get(&self, key: &str) -> (r: Option<&Json>)
        ensures
            said(r) == get(self.tree(), key@),
    {
        proof {
            lemma_tree(*self);
        }
        match self {
            Json::Obj(m) => match find_member(m, key) {
                Some(i) => {
                    assert(members(m@)[i as int].1 == m@[i as int].1.tree());
                    Some(&m[i].1)
                },
                None => None,
            },
            _ => None,
        }
    }
}

/// The text of a JSON string.
pub fn text_of(v: Option<&Json>) -> (r: Option<String>)
    ensures
        text::option_text(r) == str_of(said(v)),
{
    match v {
        Some(Json::Str(s)) => Some(text::copy(s.as_str())),
        _ => None,
    }
}

/// The truth value of a JSON boolean.
pub fn truth_of(v: Option<&Json>) -> (r: Option<bool>)
    ensures
        r == bool_of(said(v)),
{
    match v {
        Some(Json::Bool(b)) => Some(*b),
        _ => None,
    }
}

// ───────────────────────── changing documents ─────────────────────────

/// An object with `x` as its member `key`: in place of what it was, or at the end. What is no
/// object stays as it is.
pub open spec fn set(v: Tree, key: Seq<char>, x: Tree) -> Tree {
    match v {
        Tree::Obj(m) => match member(m, key) {
            Some(i) => Tree::Obj(m.update(i, (key, x))),
            None => Tree::Obj(m.push((key, x))),
        },
        _ => v,
    }
}

/// An object without its member `key`.
pub open spec fn unset(v: Tree, key: Seq<char>) -> Tree {
    match v {
        Tree::Obj(m) => match member(m, key) {
            Some(i) => Tree::Obj(m.remove(i)),
            None => v,
        },
        _ => v,
    }
}

/// What was set is what is there, and every other member is as it was.
pub proof fn lemma_set(v: Tree, key: Seq<char>, x: Tree, other: Seq<char>)
    requires
        v is Obj,
    ensures
        set(v, key, x) is Obj,
        get(set(v, key, x), key) == Some(x),
        other != key ==> get(set(v, key, x), other) == get(v, other),
{
    let m = v->Obj_0;
    let n = set(v, key, x)->Obj_0;
    lemma_member_from(m, key, 0);
    lemma_member_from(n, key, 0);
    lemma_member_from(m, other, 0);
    lemma_member_from(n, other, 0);
    let at = match member(m, key) {
        Some(i) => i,
        None => m.len() as int,
    };
    assert(n[at] == (key, x));
    assert forall|j: int| 0 <= j < m.len() && j != at implies n[j] == m[j] by {}
    match member(n, key) {
        Some(i) => {
            if i < at {
                assert(n[i] == m[i]);
            }
        },
        None => {},
    }
    if other != key {
        match (member(m, other), member(n, other)) {
            (Some(i), Some(j)) => {
                assert(n[i] == m[i]);
                assert(n[j] == m[j]);
            },
            (Some(i), None) => {
                assert(n[i] == m[i]);
            },
            (None, Some(j)) => {
                assert(n[j] == m[j]);
            },
            (None, None) => {},
        }
    }
}

impl Json {
    /// A copy of this value.
    pub fn copy(&self) -> (r: Json)
        ensures
            r.tree() == self.tree(),
        decreases self,
    {
        match self {
            Json::Null => Json::Null,
            Json::Bool(b) => Json::Bool(*b),
            Json::Num(n) => Json::Num(number_copy(n)),
            Json::Str(s) => Json::Str(text::copy(s.as_str())),
            Json::Arr(a) => {
                let mut out: Vec<Json> = Vec::new();
                let mut i: usize = 0;
                while i < a.len()
                    invariant
                        i <= a.len(),
                        *self matches Json::Arr(b) && b == *a,
                        items(out@) == items(a@).take(i as int),
                    decreases a.len() - i,
                {
                    let ghost before = out@;
                    out.push(a[i].copy());
                    i = i + 1;
                    assert(items(out@) =~= items(before).push(a@[i - 1].tree()));
                    assert(items(a@).take(i as int) =~= items(a@).take(i - 1).push(
                        a@[i - 1].tree(),
                    ));
                }
                assert(items(a@).take(i as int) =~= items(a@));
                let r = Json::Arr(out);
                proof {
                    lemma_tree(r);
                    lemma_tree(*self);
                }
                r
            },
            Json::Obj(m) => {
                let mut out: Vec<(String, Json)> = Vec::new();
                let mut i: usize = 0;
                while i < m.len()
                    invariant
                        i <= m.len(),
                        *self matches Json::Obj(b) && b == *m,
                        members(out@) == members(m@).take(i as int),
                    decreases m.len() - i,
                {
                    let ghost before = out@;
                    out.push((text::copy(m[i].0.as_str()), m[i].1.copy()));
                    i = i + 1;
                    assert(members(out@) =~= members(before).push(members(m@)[i - 1]));
                    assert(members(m@).take(i as int) =~= members(m@).take(i - 1).push(
                        members(m@)[i - 1],
                    ));
                }
                assert(members(m@).take(i as int) =~= members(m@));
                let r = Json::Obj(out);
                proof {
                    lemma_tree(r);
                    lemma_tree(*self);
                }
                r
            },
        }
    }

    /// This object with `x` as its member `key`.
    pub fn with(self, key: &str, x: Json) -> (r: Json)
        ensures
            r.tree() == set(self.tree(), key@, x.tree()),
    {
        proof {
            lemma_tree(self);
        }
        match self {
            Json::Obj(m) => {
                let mut m = m;
                let ghost before = members(m@);
                proof {
                    lemma_member_from(before, key@, 0);
                }
                match find_member(&m, key) {
                    Some(i) => {
                        m.set(i, (text::copy(key), x));
                        assert(members(m@) =~= before.update(i as int, (key@, x.tree())));
                    },
                    None => {
                        m.push((text::copy(key), x));
                        assert(members(m@) =~= before.push((key@, x.tree())));
                    },
                }
                let r = Json::Obj(m);
                proof {
                    lemma_tree(r);
                }
                r
            },
            _ => self,
        }
    }

    /// This object without its member `key`.
    pub fn without(self, key: &str) -> (r: Json)
        ensures
            r.tree() == unset(self.tree(), key@),
    {
        proof {
            lemma_tree(self);
        }
        match self {
            Json::Obj(m) => {
                let mut m = m;
                let ghost before = members(m@);
                match find_member(&m, key) {
                    Some(i) => {
                        let gone = m.remove(i);
                        assert(members(m@) =~= before.remove(i as int));
                    },
                    None => {},
                }
                let r = Json::Obj(m);
                proof {
                    lemma_tree(r);
                }
                r
            },
            _ => self,
        }
    }
}

/// What is set in a document whose members have different names leaves it so.
pub proof fn lemma_set_well_named(v: Tree, key: Seq<char>, x: Tree)
    requires
        well_named(v),
        well_named(x),
    ensures
        well_named(set(v, key, x)),
{
    if v is Obj {
        let m = v->Obj_0;
        let n = set(v, key, x)->Obj_0;
        lemma_member_from(m, key, 0);
        let at = match member(m, key) {
            Some(i) => i,
            None => m.len() as int,
        };
        assert(n[at] == (key, x));
        assert forall|j: int| 0 <= j < m.len() && j != at implies n[j] == m[j] by {}
        assert forall|i: int| 0 <= i < n.len() implies well_named((#[trigger] n[i]).1) by {
            if i != at {
                assert(n[i] == m[i]);
            }
        }
        assert forall|i: int, j: int| 0 <= i < j < n.len() implies (#[trigger] n[i]).0 != (
        #[trigger] n[j]).0 by {
            if i != at {
                assert(n[i] == m[i]);
            }
            if j != at {
                assert(n[j] == m[j]);
            }
            if i == at {
                assert(member(m, key) is Some && m[at].0 == key);
            } else if j == at && member(m, key) is Some {
                assert(m[at].0 == key);
            }
        }
    }
}

/// What is taken out of a document whose members have different names leaves it so.
pub proof fn lemma_unset_well_named(v: Tree, key: Seq<char>)
    requires
        well_named(v),
    ensures
        well_named(unset(v, key)),
{
    if v is Obj {
        let m = v->Obj_0;
        lemma_member_from(m, key, 0);
        match member(m, key) {
            Some(at) => {
                let n = m.remove(at);
                assert forall|i: int| 0 <= i < n.len() implies n[i] == m[if i < at {
                    i
                } else {
                    i + 1
                }] by {}
                assert forall|i: int| 0 <= i < n.len() implies well_named((#[trigger] n[i]).1) by {
                    assert(well_named(m[if i < at {
                        i
                    } else {
                        i + 1
                    }].1));
                }
                assert(names_differ(n));
            },
            None => {},
        }
    }
}

/// An item of a document whose members have different names is such a document.
pub proof fn lemma_item_well_named(v: Tree, i: int)
    requires
        well_named(v),
        v is Arr,
        0 <= i < v->Arr_0.len(),
    ensures
        well_named(v->Arr_0[i]),
{
}

/// A member of a document whose members have different names is such a document.
pub proof fn lemma_get_well_named(v: Tree, key: Seq<char>)
    requires
        well_named(v),
    ensures
        get(v, key) matches Some(x) ==> well_named(x),
{
    if v is Obj {
        lemma_member_from(v->Obj_0, key, 0);
    }
}

// ───────────────────────── writing documents ─────────────────────────

/// One layer of a document, above documents that are made already.
pub enum Shape {
    Null,
    Bool(bool),
    Num(Number),
    Str(String),
    Arr(Vec<Value>),
    Obj(Vec<(String, Value)>),
}

/// What a layer and the documents under it say together.
pub open spec fn shaped(s: Shape) -> Tree {
    match s {
        Shape::Null => Tree::Null,
        Shape::Bool(b) => Tree::Bool(b),
        Shape::Num(n) => Tree::Num(n),
        Shape::Str(t) => Tree::Str(t@),
        Shape::Arr(a) => Tree::Arr(a@.map_values(|v: Value| held(v))),
        Shape::Obj(m) => Tree::Obj(m@.map_values(|e: (String, Value)| (e.0@, held(e.1)))),
    }
}

/// Two objects have the same members, in whichever order.
pub open spec fn regrouped(a: Tree, b: Tree) -> bool {
    a is Obj && b is Obj && a->Obj_0.to_multiset() == b->Obj_0.to_multiset()
}

/// The variants of `serde_json::Value`, and collecting the members of an object into its map.
/// The map keeps members with different names, in an order of its own; what it makes of members
/// with the same name is left unsaid.
#[verifier::external_body]
fn built(s: Shape) -> (r: Value)
    ensures
        !(s is Obj) ==> held(r) == shaped(s),
        s is Obj && names_differ(shaped(s)->Obj_0) ==> regrouped(held(r), shaped(s)),
{
    match s {
        Shape::Null => Value::Null,
        Shape::Bool(b) => Value::Bool(b),
        Shape::Num(n) => Value::Number(n),
        Shape::Str(t) => Value::String(t),
        Shape::Arr(a) => Value::Array(a),
        Shape::Obj(m) => Value::Object(m.into_iter().collect()),
    }
}

/// Two documents say the same: only the order of the members of objects may differ.
pub open spec fn same_document(a: Tree, b: Tree) -> bool
    decreases b,
{
    match b {
        Tree::Arr(y) => {
            &&& a is Arr
            &&& a->Arr_0.len() == y.len()
            &&& forall|i: int| 0 <= i < y.len() ==> same_document(a->Arr_0[i], #[trigger] y[i])
        },
        Tree::Obj(y) => {
            &&& a is Obj
            &&& exists|z: Seq<(Seq<char>, Tree)>|
                {
                    &&& #[trigger] z.to_multiset() == a->Obj_0.to_multiset()
                    &&& z.len() == y.len()
                    &&& forall|i: int|
                        0 <= i < y.len() ==> z[i].0 == (#[trigger] y[i]).0 && same_document(
                            z[i].1,
                            y[i].1,
                        )
                }
        },
        _ => a == b,
    }
}

/// A document as `serde_json` holds it.
fn value_of(v: &Json) -> (r: Value)
    ensures
        well_named(v.tree()) ==> same_document(held(r), v.tree()),
    decreases v,
{
    proof {
        lemma_tree(*v);
    }
    match v {
        Json::Null => built(Shape::Null),
        Json::Bool(b) => built(Shape::Bool(*b)),
        Json::Num(n) => built(Shape::Num(number_copy(n))),
        Json::Str(s) => built(Shape::Str(text::copy(s.as_str()))),
        Json::Arr(a) => {
            let mut out: Vec<Value> = Vec::new();
            let mut i: usize = 0;
            while i < a.len()
                invariant
                    i <= a.len(),
                    *v matches Json::Arr(b) && b == *a,
                    out.len() == i,
                    forall|k: int|
                        0 <= k < i && well_named(items(a@)[k]) ==> same_document(
                            held(#[trigger] out@[k]),
                            items(a@)[k],
                        ),
                decreases a.len() - i,
            {
                assert(items(a@)[i as int] == a@[i as int].tree());
                out.push(value_of(&a[i]));
                i = i + 1;
            }
            let ghost made = out@.map_values(|x: Value| held(x));
            let r = built(Shape::Arr(out));
            proof {
                let all = items(a@);
                if well_named(v.tree()) {
                    assert(v.tree() == Tree::Arr(all));
                    assert forall|k: int| 0 <= k < all.len() implies same_document(
                        made[k],
                        #[trigger] all[k],
                    ) by {
                        lemma_item_well_named(v.tree(), k);
                        assert(made[k] == held(out@[k]));
                    }
                }
            }
            r
        },
        Json::Obj(m) => {
            let mut out: Vec<(String, Value)> = Vec::new();
            let mut i: usize = 0;
            while i < m.len()
                invariant
                    i <= m.len(),
                    *v matches Json::Obj(b) && b == *m,
                    out.len() == i,
                    forall|k: int|
                        0 <= k < i ==> (#[trigger] out@[k]).0@ == members(m@)[k].0 && (well_named(
                            members(m@)[k].1,
                        ) ==> same_document(held(out@[k].1), members(m@)[k].1)),
                decreases m.len() - i,
            {
                assert(members(m@)[i as int] == (m@[i as int].0@, m@[i as int].1.tree()));
                out.push((text::copy(m[i].0.as_str()), value_of(&m[i].1)));
                i = i + 1;
            }
            let ghost made = out@.map_values(|e: (String, Value)| (e.0@, held(e.1)));
            let ghost all = members(m@);
            let r = built(Shape::Obj(out));
            proof {
                if well_named(v.tree()) {
                    assert forall|k: int| 0 <= k < all.len() implies made[k].0 == (
                    #[trigger] all[k]).0 && same_document(made[k].1, all[k].1) by {
                        assert(well_named(all[k].1));
                        assert(made[k] == (out@[k].0@, held(out@[k].1)));
                    }
                    assert(names_differ(made)) by {
                        assert forall|a: int, b: int| 0 <= a < b < made.len() implies (
                        #[trigger] made[a]).0 != (#[trigger] made[b]).0 by {
                            assert(all[a].0 != all[b].0);
                        }
                    }
                    assert(made.to_multiset() == held(r)->Obj_0.to_multiset());
                }
            }
            r
        },
    }
}

/// What `serde_json::to_string_pretty` makes of a document: its text, or the words of the error.
pub uninterp spec fn json_pretty(v: Tree) -> Result<Seq<char>, Seq<char>>;

/// `serde_json::to_string_pretty` of a `serde_json::Value`. What is claimed: the outcome depends
/// on what the value holds alone.
#[verifier::external_body]
fn print_value(v: &Value) -> (r: Result<String, String>)
    ensures
        json_pretty(held(*v)) == (match r {
            Ok(s) => Ok::<Seq<char>, Seq<char>>(s@),
            Err(e) => Err::<Seq<char>, Seq<char>>(e@),
        }),
{
    serde_json::to_string_pretty(v).map_err(|e| e.to_string())
}

/// The text of a document, or the words of the error.
pub(crate) fn print_json(v: &Json) -> (r: Result<String, String>)
    ensures
        exists|t: Tree| #[trigger]
            is_printed(t, r) && (well_named(v.tree()) ==> same_document(t, v.tree())),
{
    let value = value_of(v);
    let r = print_value(&value);
    assert(is_printed(held(value), r));
    r
}

/// What came of printing a document.
pub open spec fn is_printed(t: Tree, r: Result<String, String>) -> bool {
    json_pretty(t) == (match r {
        Ok(s) => Ok::<Seq<char>, Seq<char>>(s@),
        Err(e) => Err::<Seq<char>, Seq<char>>(e@),
    })
}

/// A member is found by its name, the first one of that name where there are several; what is
/// no object has no members. A text or a truth value is what a member says only where it is one.
pub proof fn law_members_are_found_by_name(m: Seq<(Seq<char>, Tree)>, i: int, key: Seq<char>, v: Tree)
    ensures
        0 <= i < m.len() && m[i].0 == key && (forall|j: int| 0 <= j < i ==> (#[trigger] m[j]).0
            != key) ==> get(Tree::Obj(m), key) == Some(m[i].1),
        (forall|j: int| 0 <= j < m.len() ==> (#[trigger] m[j]).0 != key) ==> get(
            Tree::Obj(m),
            key,
        ) is None,
        !(v is Obj) ==> get(v, key) is None,
        forall|s: Seq<char>| #[trigger] str_of(Some(Tree::Str(s))) == Some(s),
        forall|b: bool| #[trigger] bool_of(Some(Tree::Bool(b))) == Some(b),
        !(v is Str) ==> str_of(Some(v)) is None,
        !(v is Bool) ==> bool_of(Some(v)) is None,
        str_of(None) is None && bool_of(None) is None,
{
    lemma_member_from(m, key, 0);
}

/// A member that was taken out is gone, and the others stay as they were.
pub proof fn law_taken_member_is_gone(v: Tree, key: Seq<char>, other: Seq<char>)
    requires
        well_named(v),
        other != key,
    ensures
        get(unset(v, key), key) is None,
        get(unset(v, key), other) == get(v, other),
{
    if let Tree::Obj(m) = v {
        lemma_member_from(m, key, 0);
        lemma_member_from(m, other, 0);
        if let Some(i) = member(m, key) {
            let n = m.remove(i);
            lemma_member_from(n, key, 0);
            lemma_member_from(n, other, 0);
            assert forall|j: int| 0 <= j < n.len() implies #[trigger] n[j] == (if j < i {
                m[j]
            } else {
                m[j + 1]
            }) by {}
            if let Some(j) = member(n, key) {
                if j >= i {
                    assert(m[i].0 != m[j + 1].0);
                }
            }
            match (member(m, other), member(n, other)) {
                (Some(a), Some(b)) => {
                    let c = if b < i {
                        b
                    } else {
                        b + 1
                    };
                    assert(m[c].0 == other && m[a].0 == other);
                    if a < c {
                        assert(m[a].0 != m[c].0);
                    } else if c < a {
                        assert(m[c].0 != m[a].0);
                    }
                },
                (Some(a), None) => {
                    let b = if a < i {
                        a
                    } else {
                        a - 1
                    };
                    assert(n[b].0 == other);
                },
                (None, Some(b)) => {
                    let c = if b < i {
                        b
                    } else {
                        b + 1
                    };
                    assert(m[c].0 == other);
                },
                _ => {},
            }
        }
    }
}

/// A member that was put is what is found, and the others stay as they were.
pub proof fn law_put_member_is_found(v: Tree, key: Seq<char>, x: Tree, other: Seq<char>)
    requires
        v is Obj,
    ensures
        get(set(v, key, x), key) == Some(x),
        other != key ==> get(set(v, key, x), other) == get(v, other),
{
    lemma_set(v, key, x, other);
}

} // verus!
