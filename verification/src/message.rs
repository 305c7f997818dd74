use vstd::prelude::*;

verus! {

/// The messages that the application window and its widgets send.
#[derive(Debug, PartialEq)]
pub enum Message {
    OpenRepositoryUrl,
    SubscriptionChannel,
    LaunchUrl(String),
}

} // verus!
