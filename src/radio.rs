use vstd::prelude::*;
use crate::config::ConfigError;

verus! {

/// The radio that another component has configured.
pub struct RadioDescriptor {
    pub vendor: String,
    pub model: String,
}

/// The label of the configured radio, from the result of reading its
/// descriptor: "<vendor> <model>", or "NO-RADIO" when there is none.
pub open spec fn radio_label_of(read: Result<RadioDescriptor, ConfigError>) -> Result<
    Seq<char>,
    ConfigError,
> {
    match read {
        Ok(d) => Ok(d.vendor@ + " "@ + d.model@),
        Err(ConfigError::NotFound) => Ok("NO-RADIO"@),
        Err(e) => Err(e),
    }
}

/// Names the configured radio. An absent descriptor is no error: it means
/// that no radio is configured.
pub fn radio_label(read: Result<RadioDescriptor, ConfigError>) -> (r: Result<String, ConfigError>)
    ensures
        match (r, radio_label_of(read)) {
            (Ok(s), Ok(t)) => s@ == t,
            (Err(e), Err(f)) => e == f,
            _ => false,
        },
{
    match read {
        Ok(d) => {
            let mut s = d.vendor;
            s.append(" ");
            s.append(d.model.as_str());
            Ok(s)
        },
        Err(ConfigError::NotFound) => Ok(String::from_str("NO-RADIO")),
        Err(e) => Err(e),
    }
}

} // verus!
