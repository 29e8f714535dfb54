//! The icons of the desktop.

use vstd::prelude::*;

verus! {

/// What is done to the list of icons so that it is hidden or shown: nothing where it is so
/// already.
pub open spec fn change(visible: bool, hidden: bool) -> Option<bool> {
    if visible == hidden {
        Some(!hidden)
    } else {
        None
    }
}

/// Whether the list of icons is to be shown (`Some(true)`), hidden (`Some(false)`) or
/// left as it is.
pub fn set_hidden(visible: bool, hidden: bool) -> (r: Option<bool>)
    ensures
        r == change(visible, hidden),
{
    if visible == hidden {
        Some(!hidden)
    } else {
        None
    }
}

/// The first of these that is there.
pub open spec fn first_there(views: Seq<Option<isize>>) -> Option<isize>
    decreases views.len(),
{
    if views.len() == 0 {
        None
    } else if views[0] is Some {
        views[0]
    } else {
        first_there(views.skip(1))
    }
}

/// The view of the desktop: that of its main window, or else the first that a worker
/// window has.
pub fn desktop_view(main: Option<isize>, workers: &Vec<Option<isize>>) -> (r: Option<isize>)
    ensures
        r == (if main is Some {
            main
        } else {
            first_there(workers@)
        }),
{
    if main.is_some() {
        return main;
    }
    let mut i: usize = 0;
    assert(workers@.skip(0) =~= workers@);
    while i < workers.len()
        invariant
            main is None,
            i <= workers@.len(),
            first_there(workers@) == first_there(workers@.skip(i as int)),
        decreases workers@.len() - i,
    {
        if workers[i].is_some() {
            assert(workers@.skip(i as int)[0] == workers@[i as int]);
            return workers[i];
        }
        assert(workers@.skip(i as int).skip(1) =~= workers@.skip(i as int + 1));
        i += 1;
    }
    None
}

/// After a change the icons are as they were asked to be, and asking again changes
/// nothing.
pub proof fn law_settles(visible: bool, hidden: bool)
    ensures
        ({
            let after = match change(visible, hidden) {
                Some(v) => v,
                None => visible,
            };
            after == !hidden && change(after, hidden) is None
        }),
{
}

} // verus!
