use vstd::prelude::*;

verus! {

/// The credentials of an account that has logged in.
#[derive(Debug)]
pub struct LoginResult {
    pub remix_userid: String,
    pub remix_userkey: String,
    pub username: String,
    pub email: String,
    pub password: String,
}

impl Clone for LoginResult {
    fn clone(&self) -> (r: Self)
        ensures
            r == *self,
    {
        LoginResult {
            remix_userid: self.remix_userid.clone(),
            remix_userkey: self.remix_userkey.clone(),
            username: self.username.clone(),
            email: self.email.clone(),
            password: self.password.clone(),
        }
    }
}

} // verus!
