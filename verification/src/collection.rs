//! The collect-or-fail accumulator: either every node produced so far, or
//! every error met so far.

use vstd::prelude::*;
use crate::error::{Error, ErrorView};
use crate::node::{Node, NodeView};

verus! {

/// Gathers nodes until the first error is thrown, and errors from then on.
#[derive(Debug, PartialEq, Eq)]
pub enum Collection<T> {
    /// No error so far: the nodes pushed, in order.
    Okay(Vec<Node<T>>),
    /// At least one error: the errors thrown, in order.
    Failed(Vec<Error>),
}

/// The mathematical model of a [`Collection`].
pub enum CollectionView<V> {
    Okay(Seq<NodeView<V>>),
    Failed(Seq<ErrorView>),
}

impl<T: DeepView> DeepView for Collection<T> {
    type V = CollectionView<T::V>;

    open spec fn deep_view(&self) -> CollectionView<T::V> {
        match self {
            Collection::Okay(nodes) => CollectionView::Okay(nodes.deep_view()),
            Collection::Failed(errors) => CollectionView::Failed(errors.deep_view()),
        }
    }
}

impl<V> CollectionView<V> {
    /// The collection that has nothing in it.
    pub open spec fn empty() -> Self {
        CollectionView::Okay(Seq::empty())
    }

    /// The collection after `node` is pushed: kept while no error was thrown,
    /// discarded after.
    pub open spec fn push(self, node: NodeView<V>) -> Self {
        match self {
            CollectionView::Okay(nodes) => CollectionView::Okay(nodes.push(node)),
            CollectionView::Failed(errors) => CollectionView::Failed(errors),
        }
    }

    /// The collection after `error` is thrown: the first error replaces the
    /// nodes, each later one is appended.
    pub open spec fn throw(self, error: ErrorView) -> Self {
        match self {
            CollectionView::Okay(_) => CollectionView::Failed(seq![error]),
            CollectionView::Failed(errors) => CollectionView::Failed(errors.push(error)),
        }
    }

    /// The collection after the list `errors` is thrown as a whole: it has
    /// failed, and holds the errors it held before, then `errors`. A list
    /// without errors fails it too.
    pub open spec fn throw_all(self, errors: Seq<ErrorView>) -> Self {
        match self {
            CollectionView::Okay(_) => CollectionView::Failed(errors),
            CollectionView::Failed(held) => CollectionView::Failed(held + errors),
        }
    }

    /// The collection after each of `errors` is thrown, first to last. With
    /// no error to throw it stays as it is.
    pub open spec fn throw_each(self, errors: Seq<ErrorView>) -> Self
        decreases errors.len(),
    {
        if errors.len() == 0 {
            self
        } else {
            self.throw_each(errors.drop_last()).throw(errors.last())
        }
    }

    /// The collection after the outcome of a step that yields no node: the
    /// error is thrown if there is one.
    pub open spec fn try_throw(self, outcome: Result<(), ErrorView>) -> Self {
        match outcome {
            Ok(_) => self,
            Err(error) => self.throw(error),
        }
    }

    /// The errors held, none while the collection is `Okay`.
    pub open spec fn errors(self) -> Seq<ErrorView> {
        match self {
            CollectionView::Okay(_) => Seq::empty(),
            CollectionView::Failed(errors) => errors,
        }
    }

    /// The nodes held, none once the collection is `Failed`.
    pub open spec fn nodes(self) -> Seq<NodeView<V>> {
        match self {
            CollectionView::Okay(nodes) => nodes,
            CollectionView::Failed(_) => Seq::empty(),
        }
    }
}

impl<T: DeepView> Collection<T> {
    /// An empty collection, in the `Okay` state.
    pub fn new() -> (collection: Collection<T>)
        ensures
            collection.deep_view() == CollectionView::<T::V>::empty(),
    {
        let collection = Collection::Okay(Vec::new());
        assert(collection.deep_view()->Okay_0 =~= Seq::empty());
        collection
    }

    /// Appends `node` while no error was thrown; discards it after.
    pub fn push(&mut self, node: Node<T>)
        ensures
            final(self).deep_view() == old(self).deep_view().push(node.deep_view()),
    {
        match self {
            Collection::Okay(nodes) => {
                let ghost before = nodes.deep_view();
                nodes.push(node);
                assert(nodes.deep_view() =~= before.push(node.deep_view()));
            },
            Collection::Failed(_) => {},
        }
    }

    /// Records `error`. The first error thrown discards the nodes for good.
    pub fn throw(&mut self, error: Error)
        ensures
            final(self).deep_view() == old(self).deep_view().throw(error.deep_view()),
            *final(self) is Failed,
    {
        match self {
            Collection::Okay(_) => {
                let mut errors: Vec<Error> = Vec::new();
                errors.push(error);
                assert(errors.deep_view() =~= seq![error.deep_view()]);
                *self = Collection::Failed(errors);
            },
            Collection::Failed(errors) => {
                let ghost before = errors.deep_view();
                errors.push(error);
                assert(errors.deep_view() =~= before.push(error.deep_view()));
            },
        }
    }

    /// Records the list `errors` as a whole. The collection has failed after
    /// it, also where the list is empty.
    pub fn throw_all(&mut self, errors: Vec<Error>)
        ensures
            final(self).deep_view() == old(self).deep_view().throw_all(errors.deep_view()),
            *final(self) is Failed,
    {
        match self {
            Collection::Okay(_) => {
                *self = Collection::Failed(errors);
            },
            Collection::Failed(held) => {
                let ghost before = held.deep_view();
                let mut errors = errors;
                let ghost added = errors.deep_view();
                held.append(&mut errors);
                assert(held.deep_view() =~= before + added);
            },
        }
    }

    /// Records each of `errors`, first to last. With no error to record the
    /// collection stays as it is.
    pub fn throw_each(&mut self, errors: Vec<Error>)
        ensures
            final(self).deep_view() == old(self).deep_view().throw_each(errors.deep_view()),
    {
        proof {
            lemma_throw_each(self.deep_view(), errors.deep_view());
        }
        if errors.len() > 0 {
            self.throw_all(errors);
        }
    }

    /// Records the error of a step that yields no node, if it failed.
    pub fn try_throw(&mut self, outcome: Result<(), Error>)
        ensures
            final(self).deep_view() == old(self).deep_view().try_throw(
                match outcome {
                    Ok(_) => Ok(()),
                    Err(error) => Err(error.deep_view()),
                },
            ),
    {
        match outcome {
            Ok(_) => {},
            Err(error) => {
                self.throw(error);
            },
        }
    }

    /// True while no error was thrown.
    pub fn is_ok(&self) -> (answer: bool)
        ensures
            answer == (self is Okay),
            answer == (self.deep_view() is Okay),
    {
        match self {
            Collection::Okay(_) => true,
            Collection::Failed(_) => false,
        }
    }

    /// The nodes if no error was thrown, the errors if one was.
    pub fn into_result(self) -> (result: Result<Vec<Node<T>>, Vec<Error>>)
        ensures
            match result {
                Ok(nodes) => self.deep_view() == CollectionView::<T::V>::Okay(nodes.deep_view()),
                Err(errors) => self.deep_view() == CollectionView::<T::V>::Failed(
                    errors.deep_view(),
                ),
            },
    {
        match self {
            Collection::Okay(nodes) => Ok(nodes),
            Collection::Failed(errors) => Err(errors),
        }
    }
}

/// Once an error was thrown the collection stays failed, whatever is pushed
/// or thrown after, and no error is ever lost.
pub proof fn lemma_failure_is_final<V>(
    collection: CollectionView<V>,
    node: NodeView<V>,
    error: ErrorView,
)
    requires
        collection is Failed,
    ensures
        collection.push(node) == collection,
        collection.throw(error) is Failed,
        collection.throw(error).errors() == collection.errors().push(error),
{
}

/// Throwing the errors of a list one by one is throwing the list as a whole,
/// unless the list is empty: then nothing is thrown.
pub proof fn lemma_throw_each<V>(collection: CollectionView<V>, errors: Seq<ErrorView>)
    ensures
        errors.len() == 0 ==> collection.throw_each(errors) == collection,
        errors.len() > 0 ==> collection.throw_each(errors) == collection.throw_all(errors),
        errors.len() > 0 ==> collection.throw_each(errors) == CollectionView::<V>::Failed(
            collection.errors() + errors,
        ),
    decreases errors.len(),
{
    if errors.len() > 0 {
        lemma_throw_each(collection, errors.drop_last());
        if errors.len() == 1 {
            assert(collection.errors() + errors =~= collection.errors().push(errors.last()));
        } else {
            assert((collection.errors() + errors.drop_last()).push(errors.last())
                =~= collection.errors() + errors);
        }
        assert(Seq::<ErrorView>::empty() + errors =~= errors);
    }
}

impl<V> CollectionView<V> {
    /// True when nothing that `earlier` holds against the input is lost in
    /// `self`: if `earlier` has failed, so has `self`, and the errors of
    /// `earlier` are the first errors of `self`, in the same order.
    pub open spec fn keeps(self, earlier: CollectionView<V>) -> bool {
        earlier is Failed ==> {
            &&& self is Failed
            &&& earlier.errors().len() <= self.errors().len()
            &&& self.errors().take(earlier.errors().len() as int) =~= earlier.errors()
        }
    }
}

/// Pushing and throwing keep every error, and keeping is transitive.
pub proof fn lemma_keeps<V>(
    collection: CollectionView<V>,
    node: NodeView<V>,
    error: ErrorView,
    errors: Seq<ErrorView>,
)
    ensures
        collection.keeps(collection),
        collection.push(node).keeps(collection),
        collection.throw(error).keeps(collection),
        collection.throw_all(errors).keeps(collection),
        collection.throw_each(errors).keeps(collection),
        forall|later: CollectionView<V>, last: CollectionView<V>|
            later.keeps(collection) && #[trigger] last.keeps(later) ==> last.keeps(collection),
{
    lemma_throw_each(collection, errors);
    assert forall|later: CollectionView<V>, last: CollectionView<V>|
        later.keeps(collection) && #[trigger] last.keeps(later) implies last.keeps(
        collection,
    ) by {
        if collection is Failed {
            let short = collection.errors().len() as int;
            let middle = later.errors().len() as int;
            assert(last.errors().take(short) =~= last.errors().take(middle).take(short));
        }
    }
}

} // verus!
