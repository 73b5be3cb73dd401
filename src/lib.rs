//! Completion engine for curl commands against an OpenAPI description.
//!
//! Given a shell pipeline holding one `curl` invocation and a description of
//! the target API, the engine fills in the next header, query field or JSON
//! body that the matched operation declares, and says where the cursor lands.
//!
//! - `text`: pipeline splitting, trimming, joining, byte lengths, name order.
//! - `fields`: ordered header and query field lists.
//! - `api`: the description's model, reference resolution, operation matching.
//! - `table`: the name-sorted parameter table of an operation.
//! - `select`: which header or query field to fill next.
//! - `body`: the JSON body from the operation's request body.
//! - `engine`: one completion step on a request.
//! - `render`: the request as a curl command, spliced into its pipeline.
//! - `laws`: properties of a step, proved over the specifications above.
//! - `external`: what the engine relies on from `http` and `serde_json`.

pub mod api;
pub mod body;
pub mod engine;
pub mod external;
pub mod fields;
pub mod laws;
pub mod render;
pub mod request;
pub mod select;
pub mod table;
pub mod text;
