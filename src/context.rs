//! The application context: state set once at start-up and handed to each
//! component.
use vstd::prelude::*;
use crate::error::{ErrorKind, HttpError};

verus! {

/// The cache folder used until one is set.
pub const DEFAULT_CACHE_FOLDER: &'static str = "cache";

/// Settings that are fixed once at start-up.
pub struct AppContext {
    pub cache_folder: Option<String>,
}

impl AppContext {
    pub fn new() -> (r: AppContext)
        ensures
            r.cache_folder is None,
    {
        AppContext { cache_folder: None }
    }
}

/// Sets the cache folder; it can be set only once.
pub fn set_cache_folder(ctx: &mut AppContext, folder: &str) -> (r: Result<(), HttpError>)
    ensures
        old(ctx).cache_folder is None ==> r is Ok && final(ctx).cache_folder is Some
            && final(ctx).cache_folder->0@ == folder@,
        old(ctx).cache_folder is Some ==> r is Err && r->Err_0.kind == ErrorKind::State
            && final(ctx).cache_folder == old(ctx).cache_folder,
{
    if ctx.cache_folder.is_some() {
        return Err(HttpError::new(ErrorKind::State, "The cache folder is set already"));
    }
    ctx.cache_folder = Some(folder.to_string());
    Ok(())
}

/// The cache folder, or `cache` where none was set.
pub fn cache_folder(ctx: &AppContext) -> (r: &str)
    ensures
        match ctx.cache_folder {
            Some(f) => r@ == f@,
            None => r@ == DEFAULT_CACHE_FOLDER@,
        },
{
    match &ctx.cache_folder {
        Some(f) => f.as_str(),
        None => DEFAULT_CACHE_FOLDER,
    }
}

} // verus!
