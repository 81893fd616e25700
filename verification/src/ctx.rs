use vstd::prelude::*;

verus! {

/// The repository on whose pull requests reports are posted.
#[derive(Debug, PartialEq, Eq)]
pub struct Ctx {
    pub gh_repo: String,
    pub gh_owner: String,
}

impl Ctx {
    /// The repository `gh_repo` of the owner `gh_owner`.
    pub fn new(gh_repo: &str, gh_owner: &str) -> (ctx: Self)
        ensures
            ctx.gh_repo@ == gh_repo@,
            ctx.gh_owner@ == gh_owner@,
    {
        Self { gh_repo: gh_repo.to_owned(), gh_owner: gh_owner.to_owned() }
    }
}

impl Default for Ctx {
    /// The repository `lvgl` of the owner `lvgl`.
    fn default() -> (ctx: Self)
        ensures
            ctx.gh_repo@ == "lvgl"@,
            ctx.gh_owner@ == "lvgl"@,
    {
        Self::new("lvgl", "lvgl")
    }
}

} // verus!
