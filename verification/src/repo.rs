//! Choosing the remote to work with.

use vstd::prelude::*;
use crate::error::Error;
use crate::error::ErrorView;
use crate::text::lemma_deep_view_index;
use crate::text::str_eq;
use crate::types::GitRemote;
use crate::types::GitRemoteView;

verus! {

/// The names of the remotes, in their order.
pub open spec fn remote_names(remotes: Seq<GitRemoteView>) -> Seq<Seq<char>> {
    remotes.map_values(|r: GitRemoteView| r.name)
}

/// The remote to work with. A remote that is asked for by name has to
/// exist. Where none is asked for, `origin` is taken if there is one, else
/// the first remote; without any remote there is nothing to take.
pub open spec fn selected_remote(names: Seq<Seq<char>>, specified: Option<Seq<char>>) -> Result<
    Seq<char>,
    ErrorView,
> {
    match specified {
        Some(name) => if names.contains(name) {
            Ok(name)
        } else {
            Err(ErrorView::RemoteNotFound(name))
        },
        None => if names.len() == 0 {
            Err(ErrorView::NoSupportedRemotes)
        } else if names.contains("origin"@) {
            Ok("origin"@)
        } else {
            Ok(names[0])
        },
    }
}

/// Whether one of the remotes has the given name.
fn has_remote(remotes: &Vec<GitRemote>, name: &str) -> (r: bool)
    ensures
        r == remote_names(remotes.deep_view()).contains(name@),
{
    let ghost names = remote_names(remotes.deep_view());
    let mut i: usize = 0;
    while i < remotes.len()
        invariant
            names == remote_names(remotes.deep_view()),
            i <= remotes@.len(),
            forall|j: int| 0 <= j < i ==> names[j] != name@,
        decreases remotes@.len() - i,
    {
        proof {
            lemma_deep_view_index(*remotes, i as int);
        }
        if str_eq(remotes[i].name.as_str(), name) {
            proof {
                assert(names[i as int] == name@);
            }
            return true;
        }
        i += 1;
    }
    false
}

/// Chooses the remote to work with.
pub fn select_remote(remotes: &Vec<GitRemote>, specified: Option<&str>) -> (r: Result<
    String,
    Error,
>)
    ensures
        match r {
            Ok(name) => selected_remote(remote_names(remotes.deep_view()), specified.deep_view())
                == Ok::<Seq<char>, ErrorView>(name@),
            Err(e) => selected_remote(remote_names(remotes.deep_view()), specified.deep_view())
                == Err::<Seq<char>, ErrorView>(e@),
        },
{
    match specified {
        Some(name) => {
            if has_remote(remotes, name) {
                Ok(name.to_owned())
            } else {
                Err(Error::RemoteNotFound(name.to_owned()))
            }
        },
        None => {
            if remotes.len() == 0 {
                Err(Error::NoSupportedRemotes)
            } else if has_remote(remotes, "origin") {
                Ok("origin".to_owned())
            } else {
                proof {
                    lemma_deep_view_index(*remotes, 0);
                }
                Ok(remotes[0].name.clone())
            }
        },
    }
}

} // verus!
