use vstd::prelude::*;

verus! {

/// Type configuration for a regular Optimism node.
#[derive(Debug, Default, Clone, Copy)]
#[non_exhaustive]
pub struct OptimismNode;

/// Builder of the Optimism node's transaction pool. Settings configured here take
/// precedence over the node's configuration.
#[derive(Debug, Default, Clone, Copy)]
#[non_exhaustive]
pub struct OptimismPoolBuilder;

/// Builder of the Optimism node's payload service.
#[derive(Debug, Default, Clone)]
#[non_exhaustive]
pub struct OptimismPayloadBuilder;

/// Builder of the Optimism node's network.
#[derive(Debug, Default, Clone, Copy)]
pub struct OptimismNetwork;

} // verus!
