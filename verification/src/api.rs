//! The routes of the programming interface.

use vstd::prelude::*;

use crate::router::{Router, RouterView};
use crate::users::{user_routes, UserHandlers};

verus! {

/// The router of the interface: the routes for users, inside a middleware of its own.
pub fn router(users: UserHandlers, middleware: u64) -> (r: Router)
    ensures
        r.wf(),
        r@ == (RouterView {
            routes: (RouterView {
                routes: user_routes(users),
                middlewares: Seq::empty(),
            }).mounted("/users"@),
            middlewares: seq![middleware],
        }),
{
    let mut r: Router = Router::new();
    r.layer(middleware);
    r.mount("/users", crate::users::router(users));
    proof {
        let want = (RouterView {
            routes: user_routes(users),
            middlewares: Seq::empty(),
        }).mounted("/users"@);
        assert(r@.routes =~= want);
        assert(r@.middlewares =~= seq![middleware]);
    }
    r
}

} // verus!
