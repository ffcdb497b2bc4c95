//! Configuration values, passed in explicitly by whoever loaded them:
//! no process-wide lazily-initialized state.

use vstd::prelude::*;
use crate::date::Date;
use crate::text::str_eq;

verus! {

/// The semester-setup section of the configuration.
pub struct SetupDetails {
    /// Where the roster file sits.
    pub roster_path: String,
    /// The date of the first mask position.
    pub start_date: Date,
    /// Which calendar weeks hold class.
    pub valid_weeks: Vec<bool>,
}

/// The application's configuration.
pub struct AppConfig {
    pub setup: SetupDetails,
}

/// The setup section of a configuration.
pub fn get_config(config: AppConfig) -> (r: SetupDetails)
    ensures
        r == config.setup,
{
    config.setup
}

/// The sender identity of the mail account.
pub struct SmtpDetails {
    pub sender: String,
    pub cc: String,
}

/// A named mail template: a subject and where its body sits.
pub struct EmailTemplate {
    pub subject: String,
    pub body_path: String,
}

impl Clone for EmailTemplate {
    fn clone(&self) -> (r: Self)
        ensures
            r == *self,
    {
        EmailTemplate { subject: self.subject.clone(), body_path: self.body_path.clone() }
    }
}

/// The first template filed under `name`, if any.
pub fn find_template(templates: &Vec<(String, EmailTemplate)>, name: &str) -> (r: Option<
    EmailTemplate,
>)
    ensures
        r matches Some(t) ==> exists|i: int|
            0 <= i < templates@.len() && (#[trigger] templates@[i]).0@ == name@ && t
                == templates@[i].1,
        r is None ==> forall|i: int|
            0 <= i < templates@.len() ==> (#[trigger] templates@[i]).0@ != name@,
{
    let mut k: usize = 0;
    while k < templates.len()
        invariant
            k <= templates@.len(),
            forall|i: int| 0 <= i < k ==> (#[trigger] templates@[i]).0@ != name@,
        decreases templates@.len() - k,
    {
        if str_eq(templates[k].0.as_str(), name) {
            return Some(templates[k].1.clone());
        }
        k = k + 1;
    }
    None
}

} // verus!
