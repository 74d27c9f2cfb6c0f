use vstd::prelude::*;

verus! {

/// The library's error: a human-readable message, as shown to the user.
#[derive(Debug)]
pub struct AppError {
    pub message: String,
}

impl AppError {
    /// An error carrying `message`.
    pub fn msg(message: String) -> (e: AppError)
        ensures
            e.message@ == message@,
    {
        AppError { message }
    }

    /// An error carrying the literal text `message`.
    pub fn lit(message: &str) -> (e: AppError)
        ensures
            e.message@ == message@,
    {
        AppError { message: message.to_string() }
    }
}

/// Results of the library's fallible operations.
pub type AppResult<T> = Result<T, AppError>;

} // verus!
