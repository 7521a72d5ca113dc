//! The user account created on the installed system.
use crate::albius::{param_view, params_view, Param, ParamView, PostInstallation, PostInstallationOperation};
use crate::text::{clone_strings, strs};
use vstd::prelude::*;

verus! {

/// A user account to create.
#[derive(Debug, Clone)]
pub struct User {
    pub username: String,
    pub display_name: String,
    pub groups: Vec<String>,
    pub password: Option<String>,
}

impl User {
    /// The `adduser` operation, run inside the new system: the user name,
    /// the display name, the groups, then the password when there is one.
    pub fn into_post_installation(self) -> (r: PostInstallation)
        ensures
            r.chroot,
            r.operation == PostInstallationOperation::Adduser,
            params_view(r.params@) == seq![
                ParamView::Str(self.username@),
                ParamView::Str(self.display_name@),
                ParamView::Strs(strs(self.groups@)),
            ] + match self.password {
                Some(p) => seq![ParamView::Str(p@)],
                None => Seq::empty(),
            },
    {
        let ghost u = self.username@;
        let ghost d = self.display_name@;
        let ghost g = strs(self.groups@);
        let ghost pw = self.password;
        let groups = clone_strings(&self.groups);
        let mut params: Vec<Param> = Vec::new();
        params.push(Param::Str(self.username));
        params.push(Param::Str(self.display_name));
        params.push(Param::Strs(groups));
        let ghost p0 = params@;
        if let Some(password) = self.password {
            params.push(Param::Str(password));
        }
        proof {
            let want = seq![ParamView::Str(u), ParamView::Str(d), ParamView::Strs(g)] + match pw {
                Some(p) => seq![ParamView::Str(p@)],
                None => Seq::empty(),
            };
            assert(params_view(params@) =~= want);
        }
        PostInstallation { chroot: true, operation: PostInstallationOperation::Adduser, params }
    }
}

} // verus!
