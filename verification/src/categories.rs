//! Category rows and the category tree.
//!
//! Stored category rows are flat: their `children` field is empty, and a
//! row's parent must already exist — and precede it — when the row is
//! created or re-parented, so the stored table is always a parents-first
//! forest and the tree builders terminate.  System categories can be
//! neither edited nor deleted.  Deleting a category removes its whole
//! subtree, as the store's cascading constraint does.

use crate::error::AppError;
use crate::store::{
    category_forest, category_ids, lemma_ids_ok_push, lemma_store_view, store_model, Store,
    StoreModel,
};
use crate::types::{Category, CreateCategoryInput, UpdateCategoryInput};
use vstd::prelude::*;

verus! {

/// Some category row carries this identifier.
pub open spec fn has_category(cats: Seq<Category>, id: i64) -> bool {
    exists|j: int| 0 <= j < cats.len() && (#[trigger] cats[j]).id == id
}

/// The row that creating a category from `input` produces.
pub open spec fn created_category_ok(c: Category, input: CreateCategoryInput, id: i64) -> bool {
    &&& c.id == id
    &&& c.name == input.name
    &&& c.parent_category_id == input.parent_category_id
    &&& c.icon == input.icon
    &&& (match input.color {
        Some(col) => c.color == col,
        None => c.color@ == "#6B7280"@,
    })
    &&& c.category_type == input.category_type
    &&& c.is_system == false
    &&& c.children is None
}

/// The row that updating a non-system category with `input` leaves behind.
pub open spec fn updated_category_ok(c2: Category, c: Category, input: UpdateCategoryInput) -> bool {
    &&& c2.id == c.id
    &&& c2.name == input.name
    &&& c2.parent_category_id == input.parent_category_id
    &&& c2.icon == input.icon
    &&& c2.color == input.color
    &&& c2.category_type == input.category_type
    &&& c2.is_system == c.is_system
    &&& c2.children is None
}

/// The rows that survive deleting category `target`, scanned parents-first:
/// a row survives when it is not the target and its parent, if any, has
/// itself survived.  On a parents-first table this removes exactly the
/// target's subtree, as the store's cascading delete does.
pub open spec fn kept_categories(cats: Seq<Category>, target: i64) -> Seq<Category>
    decreases cats.len(),
{
    if cats.len() == 0 {
        Seq::empty()
    } else {
        let prefix = kept_categories(cats.drop_last(), target);
        let c = cats.last();
        if c.id != target && (match c.parent_category_id {
            Some(p) => has_category(prefix, p),
            None => true,
        }) {
            prefix.push(c)
        } else {
            prefix
        }
    }
}

/// The two rows carry the same data, children aside.
pub open spec fn same_flat(a: Category, c: Category) -> bool {
    &&& a.id == c.id
    &&& a.name == c.name
    &&& a.parent_category_id == c.parent_category_id
    &&& a.icon == c.icon
    &&& a.color == c.color
    &&& a.category_type == c.category_type
    &&& a.is_system == c.is_system
}

/// `r` is the list of direct children of `parent_id` among the rows of
/// `cats` from index `i` onward, in table order, each carrying its own
/// children in turn.  Only rows whose identifier exceeds their parent's
/// are descended into, which on a parents-first table is every row.
pub open spec fn children_ok(cats: Seq<Category>, parent_id: i64, i: int, r: Seq<Category>) -> bool
    decreases i64::MAX - parent_id, cats.len() - i,
{
    if i < 0 || i >= cats.len() {
        r.len() == 0
    } else {
        let c = cats[i];
        if c.parent_category_id == Some(parent_id) && parent_id < c.id {
            &&& r.len() > 0
            &&& same_flat(r[0], c)
            &&& (r[0].children matches Some(sub) && children_ok(cats, c.id, 0, sub@))
            &&& children_ok(cats, parent_id, i + 1, r.drop_first())
        } else {
            children_ok(cats, parent_id, i + 1, r)
        }
    }
}

/// `r` is the list of tree roots — the parentless rows of `cats` from
/// index `i` onward, in table order — each carrying its subtree.
pub open spec fn roots_ok(cats: Seq<Category>, i: int, r: Seq<Category>) -> bool
    decreases cats.len() - i,
{
    if i < 0 || i >= cats.len() {
        r.len() == 0
    } else {
        let c = cats[i];
        if c.parent_category_id is None {
            &&& r.len() > 0
            &&& same_flat(r[0], c)
            &&& (r[0].children matches Some(sub) && children_ok(cats, c.id, 0, sub@))
            &&& roots_ok(cats, i + 1, r.drop_first())
        } else {
            roots_ok(cats, i + 1, r)
        }
    }
}

/// `r` is the nested category tree of the flat, parents-first table
/// `cats`.
pub open spec fn category_tree_ok(cats: Seq<Category>, r: Seq<Category>) -> bool {
    roots_ok(cats, 0, r)
}

/// The direct children of `parent_id` in `categories`, each carrying its
/// own children recursively.  The table must be laid out parents-first
/// (`category_forest`) — the store's invariant, deliberately stronger
/// than bare acyclicity — which bounds the recursion by the child's
/// identifier.
pub fn get_children(categories: &Vec<Category>, parent_id: i64) -> (r: Vec<Category>)
    requires
        category_forest(categories@),
    ensures
        children_ok(categories@, parent_id, 0, r@),
    decreases i64::MAX - parent_id,
{
    let n = categories.len();
    let mut out: Vec<Category> = Vec::new();
    let mut i: usize = n;
    while i > 0
        invariant
            n == categories.len(),
            0 <= i <= n,
            category_forest(categories@),
            children_ok(categories@, parent_id, i as int, out@),
        decreases i,
    {
        i = i - 1;
        let is_child = match categories[i].parent_category_id {
            Some(p) => p == parent_id,
            None => false,
        };
        if is_child {
            proof {
                assert(categories@[i as int].parent_category_id matches Some(p) ==> p
                    < categories@[i as int].id);
            }
            let sub = get_children(categories, categories[i].id);
            let mut row = categories[i].clone_flat();
            row.children = Some(sub);
            let ghost out_old = out@;
            out.insert(0, row);
            proof {
                assert(out@.drop_first() =~= out_old);
                assert(same_flat(out@[0], categories@[i as int]));
                assert(children_ok(categories@, parent_id, i as int, out@));
            }
        }
    }
    out
}

/// Arrange a flat, parents-first category table into its nested tree: the
/// parentless rows, each carrying its subtree.  Like `get_children` it
/// asks for the store's parents-first invariant, not merely an acyclic
/// table; every table the store hands out satisfies it.
pub fn build_category_tree(categories: Vec<Category>) -> (r: Vec<Category>)
    requires
        category_forest(categories@),
    ensures
        category_tree_ok(categories@, r@),
{
    let n = categories.len();
    let mut out: Vec<Category> = Vec::new();
    let mut i: usize = n;
    while i > 0
        invariant
            n == categories.len(),
            0 <= i <= n,
            category_forest(categories@),
            roots_ok(categories@, i as int, out@),
        decreases i,
    {
        i = i - 1;
        if match categories[i].parent_category_id {
            Some(_) => false,
            None => true,
        } {
            let sub = get_children(&categories, categories[i].id);
            let mut row = categories[i].clone_flat();
            row.children = Some(sub);
            let ghost out_old = out@;
            out.insert(0, row);
            proof {
                assert(out@.drop_first() =~= out_old);
                assert(same_flat(out@[0], categories@[i as int]));
                assert(roots_ok(categories@, i as int, out@));
            }
        }
    }
    out
}

impl Store {
    /// The index of the category row with this identifier, if any.
    pub(crate) fn find_category_idx(&self, id: i64) -> (r: Option<usize>)
        ensures
            r matches Some(j) ==> j < self@.categories.len() && self@.categories[j as int].id
                == id,
            r matches Some(j) ==> j < self.categories@.len(),
            r is None ==> !has_category(self@.categories, id),
    {
        proof {
            lemma_store_view(*self);
        }
        let n = self.categories.len();
        let mut i: usize = 0;
        while i < n
            invariant
                n == self.categories.len(),
                0 <= i <= n,
                forall|j: int| 0 <= j < i ==> (#[trigger] self.categories@[j]).id != id,
            decreases n - i,
        {
            if self.categories[i].id == id {
                proof {
                    lemma_store_view(*self);
                }
                return Some(i);
            }
            i = i + 1;
        }
        proof {
            lemma_store_view(*self);
        }
        None
    }

    /// Create a category row.  A named parent must exist: the store's
    /// foreign-key constraint refuses a dangling parent.
    pub fn create_category(&mut self, input: CreateCategoryInput) -> (r: Result<
        Category,
        AppError,
    >)
        requires
            old(self)@.wf(),
        ensures
            final(self)@.wf(),
            r is Ok <==> old(self)@.next_id < i64::MAX && (match input.parent_category_id {
                Some(p) => has_category(old(self)@.categories, p),
                None => true,
            }),
            r matches Ok(c) ==> created_category_ok(c, input, (old(self)@.next_id) as i64)
                && final(self)@ == (StoreModel {
                next_id: old(self)@.next_id + 1,
                categories: old(self)@.categories.push(c),
                ..old(self)@
            }),
            r is Err ==> final(self)@ == old(self)@,
            r matches Err(e) ==> (if (match input.parent_category_id {
                Some(p) => !has_category(old(self)@.categories, p),
                None => false,
            }) {
                e is Database
            } else {
                e is Internal
            }),
    {
        proof {
            lemma_store_view(*old(self));
        }
        if let Some(p) = input.parent_category_id {
            if let None = self.find_category_idx(p) {
                return Err(AppError::Database("parent category does not exist".to_owned()));
            }
        }
        if self.next_id == i64::MAX {
            return Err(AppError::Internal("store identifiers exhausted".to_owned()));
        }
        let id = self.next_id;
        self.next_id = self.next_id + 1;
        let row = Category {
            id,
            name: input.name,
            parent_category_id: input.parent_category_id,
            icon: input.icon,
            color: match input.color {
                Some(c) => c,
                None => "#6B7280".to_owned(),
            },
            category_type: input.category_type,
            is_system: false,
            children: None,
        };
        let out = row.clone_flat();
        self.categories.push(row);
        proof {
            lemma_store_view(*self);
            let m = store_model(*old(self));
            assert(self@ =~= (StoreModel {
                next_id: m.next_id + 1,
                categories: m.categories.push(out),
                ..m
            }));
            assert(category_ids(m.categories.push(out)) =~= category_ids(m.categories).push(id));
            lemma_ids_ok_push(category_ids(m.categories), m.next_id);
            // a named parent already exists, so its identifier precedes the
            // fresh one and the table stays a parents-first forest
            assert forall|j: int|
                0 <= j < m.categories.push(out).len() implies ((#[trigger] m.categories.push(
                out,
            )[j]).parent_category_id matches Some(p) ==> p < m.categories.push(out)[j].id) by {
                if j < m.categories.len() {
                    assert(m.categories.push(out)[j] == m.categories[j]);
                } else {
                    assert(m.categories.push(out)[j] == out);
                    if let Some(p) = input.parent_category_id {
                        let k = choose|k: int|
                            0 <= k < m.categories.len() && (#[trigger] m.categories[k]).id == p;
                        assert(category_ids(m.categories)[k] == p);
                    }
                }
            }
        }
        Ok(out)
    }

    /// Look up a category row by identifier.
    pub fn get_category_by_id(&self, id: i64) -> (r: Result<Category, AppError>)
        ensures
            r is Ok <==> has_category(self@.categories, id),
            r matches Ok(c) ==> exists|j: int|
                0 <= j < self@.categories.len() && (#[trigger] self@.categories[j]).id == id && c
                    == (Category { children: None, ..self@.categories[j] }),
            r matches Err(e) ==> e is NotFound,
    {
        match self.find_category_idx(id) {
            Some(i) => {
                let c = self.categories[i].clone_flat();
                proof {
                    lemma_store_view(*self);
                }
                Ok(c)
            },
            None => Err(AppError::NotFound("category not found".to_owned())),
        }
    }

    /// List every category row, flat, in insertion order; a name-sorted
    /// display is done at the edge.
    pub fn get_categories(&self) -> (r: Vec<Category>)
        requires
            self@.wf(),
        ensures
            r@ == self@.categories,
    {
        proof {
            lemma_store_view(*self);
        }
        let n = self.categories.len();
        let mut out: Vec<Category> = Vec::new();
        let mut i: usize = 0;
        while i < n
            invariant
                n == self.categories.len(),
                0 <= i <= n,
                self@.wf(),
                self@.categories == self.categories@,
                out@ == self.categories@.take(i as int),
            decreases n - i,
        {
            proof {
                assert(self@.categories[i as int].children is None);
            }
            let row = self.categories[i].clone_flat();
            out.push(row);
            proof {
                assert(row == self.categories@[i as int]);
                assert(self.categories@.take(i as int + 1) =~= self.categories@.take(
                    i as int,
                ).push(self.categories@[i as int]));
            }
            i = i + 1;
        }
        proof {
            assert(self.categories@.take(n as int) =~= self.categories@);
        }
        out
    }

    /// The nested category tree.  The stored table is a parents-first
    /// forest by construction, so the builders terminate.
    pub fn get_category_tree(&self) -> (r: Vec<Category>)
        requires
            self@.wf(),
        ensures
            category_tree_ok(self@.categories, r@),
    {
        let flat = self.get_categories();
        build_category_tree(flat)
    }

    /// Rewrite a non-system category's fields.  System categories cannot
    /// be edited; a named parent must exist and must precede this row, so
    /// that the stored table stays a parents-first forest.  Refusing a
    /// later-created parent is a deliberate strengthening: re-parenting
    /// under a later row can be acyclic, but accepting it would trade the
    /// local parents-first check for a global cycle walk on every edit,
    /// and a cycle that slipped through would hang the tree builders.
    pub fn update_category(&mut self, id: i64, input: UpdateCategoryInput) -> (r: Result<
        Category,
        AppError,
    >)
        requires
            old(self)@.wf(),
        ensures
            final(self)@.wf(),
            r is Err ==> final(self)@ == old(self)@,
            !has_category(old(self)@.categories, id) ==> (r matches Err(e) && e is NotFound),
            ({
                let cats = old(self)@.categories;
                let sys = exists|j: int|
                    0 <= j < cats.len() && (#[trigger] cats[j]).id == id && cats[j].is_system;
                let parent_ok = match input.parent_category_id {
                    None => true,
                    Some(p) => has_category(cats, p) && p < id,
                };
                &&& (r is Ok <==> has_category(cats, id) && !sys && parent_ok)
                &&& (sys ==> (r matches Err(e) && e is InvalidInput))
                &&& (has_category(cats, id) && !sys ==> match input.parent_category_id {
                    None => true,
                    Some(p) => {
                        &&& (!has_category(cats, p) ==> (r matches Err(e) && e is Database))
                        &&& (has_category(cats, p) && p >= id ==> (r matches Err(e) && e
                            is InvalidInput))
                    },
                })
            }),
            r matches Ok(c) ==> exists|j: int|
                0 <= j < old(self)@.categories.len() && (#[trigger] old(self)@.categories[j]).id
                    == id && !old(self)@.categories[j].is_system && updated_category_ok(
                    c,
                    old(self)@.categories[j],
                    input,
                ) && final(self)@ == (StoreModel {
                    categories: old(self)@.categories.update(j, c),
                    ..old(self)@
                }),
    {
        match self.find_category_idx(id) {
            Some(i) => {
                proof {
                    lemma_store_view(*old(self));
                    let m = store_model(*old(self));
                    // this index is the unique row carrying the identifier
                    assert forall|j: int|
                        0 <= j < m.categories.len() && (#[trigger] m.categories[j]).id
                            == id implies j == i by {
                        if j != i {
                            assert(category_ids(m.categories)[j] == m.categories[j].id);
                            assert(category_ids(m.categories)[i as int] == m.categories[
                            i as int].id);
                        }
                    }
                }
                if self.categories[i].is_system {
                    return Err(
                        AppError::InvalidInput("system categories cannot be edited".to_owned()),
                    );
                }
                if let Some(p) = input.parent_category_id {
                    if let None = self.find_category_idx(p) {
                        return Err(
                            AppError::Database("parent category does not exist".to_owned()),
                        );
                    }
                    if p >= id {
                        return Err(
                            AppError::InvalidInput(
                                "a category's parent must precede it".to_owned(),
                            ),
                        );
                    }
                }
                let old_row = self.categories.remove(i);
                let row = Category {
                    id: old_row.id,
                    name: input.name,
                    parent_category_id: input.parent_category_id,
                    icon: input.icon,
                    color: input.color,
                    category_type: input.category_type,
                    is_system: old_row.is_system,
                    children: None,
                };
                let out = row.clone_flat();
                self.categories.insert(i, row);
                proof {
                    lemma_store_view(*self);
                    let m = store_model(*old(self));
                    assert(self.categories@ =~= old(self).categories@.update(i as int, out));
                    assert(self@ =~= (StoreModel {
                        categories: m.categories.update(i as int, out),
                        ..m
                    }));
                    assert(category_ids(m.categories.update(i as int, out)) =~= category_ids(
                        m.categories,
                    ));
                    // the rewritten parent precedes this row, so the table
                    // stays a parents-first forest
                    assert forall|j: int|
                        0 <= j < m.categories.update(i as int, out).len() implies ((
                    #[trigger] m.categories.update(i as int, out)[j]).parent_category_id matches
                        Some(p2) ==> p2 < m.categories.update(i as int, out)[j].id) by {
                        if j != i {
                            assert(m.categories.update(i as int, out)[j] == m.categories[j]);
                        } else {
                            assert(m.categories.update(i as int, out)[j] == out);
                        }
                    }
                }
                Ok(out)
            },
            None => Err(AppError::NotFound("category not found".to_owned())),
        }
    }

    /// Delete a non-system category together with its whole subtree, as
    /// the store's cascading constraint does.  System categories cannot
    /// be deleted; deleting a missing identifier removes nothing.
    pub fn delete_category(&mut self, id: i64) -> (r: Result<(), AppError>)
        requires
            old(self)@.wf(),
        ensures
            final(self)@.wf(),
            ({
                let sys = exists|j: int|
                    0 <= j < old(self)@.categories.len() && (#[trigger] old(self)@.categories[j]).id
                        == id && old(self)@.categories[j].is_system;
                &&& (!has_category(old(self)@.categories, id) ==> (r matches Err(e) && e
                    is NotFound && final(self)@ == old(self)@))
                &&& (sys ==> (r matches Err(e) && e is InvalidInput && final(self)@ == old(
                    self,
                )@))
                &&& (has_category(old(self)@.categories, id) && !sys ==> r is Ok && final(self)@
                    == (StoreModel {
                    categories: kept_categories(old(self)@.categories, id),
                    ..old(self)@
                }))
            }),
    {
        let i = match self.find_category_idx(id) {
            Some(i) => i,
            None => {
                return Err(AppError::NotFound("category not found".to_owned()));
            },
        };
        proof {
            lemma_store_view(*old(self));
        }
        if self.categories[i].is_system {
            return Err(AppError::InvalidInput("system categories cannot be deleted".to_owned()));
        }
        proof {
            let m = store_model(*old(self));
            assert forall|j: int|
                0 <= j < m.categories.len() && (#[trigger] m.categories[j]).id == id implies !m.categories[j].is_system by {
                if j != i {
                    assert(category_ids(m.categories)[j] == m.categories[j].id);
                    assert(category_ids(m.categories)[i as int] == m.categories[i as int].id);
                }
            }
        }
        let n = self.categories.len();
        let mut out: Vec<Category> = Vec::new();
        let mut i2: usize = 0;
        while i2 < n
            invariant
                n == self.categories.len(),
                0 <= i2 <= n,
                *self == *old(self),
                old(self)@.wf(),
                out@ == kept_categories(self.categories@.take(i2 as int), id),
            decreases n - i2,
        {
            let ghost prefix = self.categories@.take(i2 as int);
            let ghost prefix2 = self.categories@.take(i2 as int + 1);
            proof {
                assert(prefix2.drop_last() =~= prefix);
                assert(prefix2.last() == self.categories@[i2 as int]);
            }
            let keep = self.categories[i2].id != id && (match self.categories[i2]
                .parent_category_id {
                Some(p) => contains_category(&out, p),
                None => true,
            });
            if keep {
                let row = self.categories[i2].clone_flat();
                proof {
                    lemma_store_view(*self);
                    assert(self@.categories[i2 as int].children is None);
                    assert(row == self.categories@[i2 as int]);
                }
                out.push(row);
            }
            i2 = i2 + 1;
        }
        self.categories = out;
        proof {
            lemma_store_view(*self);
            let m = store_model(*old(self));
            assert(old(self).categories@.take(n as int) =~= old(self).categories@);
            assert(self@ =~= (StoreModel {
                categories: kept_categories(m.categories, id),
                ..m
            }));
            lemma_kept_ids_ok(m.categories, id, m.next_id);
            lemma_kept_children_none(m.categories, id);
            lemma_kept_forest(m.categories, id);
        }
        Ok(())
    }
}

/// Whether some row of the list carries this identifier.
fn contains_category(cats: &Vec<Category>, id: i64) -> (r: bool)
    ensures
        r == has_category(cats@, id),
{
    let n = cats.len();
    let mut i: usize = 0;
    while i < n
        invariant
            n == cats.len(),
            0 <= i <= n,
            forall|j: int| 0 <= j < i ==> (#[trigger] cats@[j]).id != id,
        decreases n - i,
    {
        if cats[i].id == id {
            return true;
        }
        i = i + 1;
    }
    false
}

/// Surviving a cascade keeps a table's identifiers well formed.
proof fn lemma_kept_ids_ok(cats: Seq<Category>, target: i64, next: int)
    requires
        crate::store::ids_ok(category_ids(cats), next),
    ensures
        crate::store::ids_ok(category_ids(kept_categories(cats, target)), next),
    decreases cats.len(),
{
    if cats.len() > 0 {
        let idsd = category_ids(cats.drop_last());
        assert forall|j: int| 0 <= j < idsd.len() implies (#[trigger] idsd[j]) < next by {
            assert(cats.drop_last()[j] == cats[j]);
            assert(idsd[j] == category_ids(cats)[j]);
        }
        assert forall|p: int, q: int| 0 <= p < q < idsd.len() implies idsd[p] != idsd[q] by {
            assert(cats.drop_last()[p] == cats[p]);
            assert(cats.drop_last()[q] == cats[q]);
            assert(idsd[p] == category_ids(cats)[p]);
            assert(idsd[q] == category_ids(cats)[q]);
        }
        lemma_kept_ids_ok(cats.drop_last(), target, next);
        let prefix = kept_categories(cats.drop_last(), target);
        let c = cats.last();
        if c.id != target && (match c.parent_category_id {
            Some(p) => has_category(prefix, p),
            None => true,
        }) {
            assert(category_ids(prefix.push(c)) =~= category_ids(prefix).push(c.id));
            assert(category_ids(cats)[cats.len() - 1] == c.id);
            assert forall|i: int, j: int|
                0 <= i < j < category_ids(prefix).push(c.id).len() implies category_ids(
                prefix,
            ).push(c.id)[i] != category_ids(prefix).push(c.id)[j] by {
                if j == category_ids(prefix).len() {
                    lemma_kept_row_source(cats.drop_last(), target, i);
                    let k = choose|k: int|
                        0 <= k < cats.drop_last().len() && cats.drop_last()[k] == prefix[i];
                    assert(cats.drop_last()[k] == cats[k]);
                    assert(category_ids(cats)[k] == cats[k].id);
                }
            }
        }
    }
}

/// Helper: every surviving row occurs in the table before the delete.
proof fn lemma_kept_row_source(cats: Seq<Category>, target: i64, i: int)
    requires
        0 <= i < kept_categories(cats, target).len(),
    ensures
        exists|k: int| 0 <= k < cats.len() && cats[k] == kept_categories(cats, target)[i],
    decreases cats.len(),
{
    if cats.len() > 0 {
        let prefix = kept_categories(cats.drop_last(), target);
        if i < prefix.len() {
            lemma_kept_row_source(cats.drop_last(), target, i);
            let k = choose|k: int|
                0 <= k < cats.drop_last().len() && cats.drop_last()[k] == prefix[i];
            assert(cats[k] == kept_categories(cats, target)[i]);
        } else {
            assert(cats[cats.len() - 1] == kept_categories(cats, target)[i]);
        }
    }
}

/// Surviving a cascade keeps the table a parents-first forest.
proof fn lemma_kept_forest(cats: Seq<Category>, target: i64)
    requires
        category_forest(cats),
    ensures
        category_forest(kept_categories(cats, target)),
    decreases cats.len(),
{
    if cats.len() > 0 {
        assert forall|j: int|
            0 <= j < cats.drop_last().len() implies ((
        #[trigger] cats.drop_last()[j]).parent_category_id matches Some(p) ==> p
            < cats.drop_last()[j].id) by {
            assert(cats.drop_last()[j] == cats[j]);
        }
        lemma_kept_forest(cats.drop_last(), target);
    }
}

/// Surviving a cascade keeps rows flat.
proof fn lemma_kept_children_none(cats: Seq<Category>, target: i64)
    requires
        forall|j: int| 0 <= j < cats.len() ==> (#[trigger] cats[j]).children is None,
    ensures
        forall|j: int|
            0 <= j < kept_categories(cats, target).len() ==> (#[trigger] kept_categories(
                cats,
                target,
            )[j]).children is None,
    decreases cats.len(),
{
    if cats.len() > 0 {
        assert forall|j: int|
            0 <= j < cats.drop_last().len() implies (#[trigger] cats.drop_last()[j]).children
            is None by {
            assert(cats.drop_last()[j] == cats[j]);
        }
        lemma_kept_children_none(cats.drop_last(), target);
    }
}

} // verus!
