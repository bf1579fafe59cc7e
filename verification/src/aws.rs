//! What the service is asked and what it answers: a table's schema and its pages.

use vstd::prelude::*;
use crate::domain;
use crate::domain::{Item, KeySchemaElement};

verus! {

/// A table's schema as discovered via `DescribeTable`.
#[derive(Debug, Clone, PartialEq)]
pub struct TableDescription {
    pub name: String,
    pub key_schema: TableKeySchema,
    pub gsis: Vec<IndexSchema>,
    pub lsis: Vec<IndexSchema>,
    pub ttl: Option<TtlDescription>,
    /// Provisioned read capacity units; `None` for on-demand tables.
    pub provisioned_rcu: Option<u64>,
    /// Approximate item count, updated by DynamoDB roughly every 6 hours.
    pub item_count: u64,
}

/// A table's own primary key schema.
#[derive(Debug, PartialEq, Eq)]
pub struct TableKeySchema {
    pub pk: KeySchemaElement,
    pub sk: Option<KeySchemaElement>,
}

impl Clone for TableKeySchema {
    fn clone(&self) -> (r: Self)
        ensures
            r == *self,
    {
        TableKeySchema { pk: self.pk.clone(), sk: domain::clone_element(&self.sk) }
    }
}

/// The key schema of a GSI or LSI.
#[derive(Debug, Clone, PartialEq, Eq)]
pub struct IndexSchema {
    pub name: String,
    pub pk: KeySchemaElement,
    pub sk: Option<KeySchemaElement>,
}

/// A table's TTL configuration.
#[derive(Debug, Clone, PartialEq, Eq)]
pub struct TtlDescription {
    pub attribute: String,
    pub enabled: bool,
}

/// One page's worth of reading from one segment of a parallel scan.
#[derive(Debug, PartialEq)]
pub struct ScanRequest {
    pub table: String,
    pub total_segments: u32,
    pub segment: u32,
    /// Where the previous page of the segment ended; `None` for the first page.
    pub exclusive_start_key: Option<Item>,
    pub return_consumed_capacity: bool,
}

/// One page of a segment.
#[derive(Debug, PartialEq)]
pub struct ScanResponse {
    pub items: Vec<Item>,
    /// Where the next page starts; `None` once the segment is exhausted.
    pub last_evaluated_key: Option<Item>,
    /// The read capacity the page cost, in units of a hundred-billionth RCU.
    pub consumed_rcu: Option<u128>,
}

/// What the user can do about a failure with the given code, if anything is known.
pub open spec fn remedy(code: Seq<char>) -> Option<Seq<char>> {
    if code == "ExpiredTokenException"@ || code == "UnrecognizedClientException"@ || code
        == "DispatchFailure"@ {
        Some("Run `aws sso login` for the profile and retry."@)
    } else if code == "AccessDeniedException"@ {
        Some("Grant dynamodb:Scan and dynamodb:DescribeTable on the table."@)
    } else if code == "ResourceNotFoundException"@ {
        Some("Check the table name and the region."@)
    } else {
        None
    }
}

/// What the user can do about a failure with the given code, if anything is known.
pub fn remediation(code: &str) -> (r: Option<&'static str>)
    ensures
        match r {
            Some(hint) => remedy(code@) == Some(hint@),
            None => remedy(code@) is None,
        },
{
    if *code == *"ExpiredTokenException" || *code == *"UnrecognizedClientException" || *code
        == *"DispatchFailure" {
        Some("Run `aws sso login` for the profile and retry.")
    } else if *code == *"AccessDeniedException" {
        Some("Grant dynamodb:Scan and dynamodb:DescribeTable on the table.")
    } else if *code == *"ResourceNotFoundException" {
        Some("Check the table name and the region.")
    } else {
        None
    }
}

/// The position of the first index of that name.
pub open spec fn index_named(indexes: Seq<IndexSchema>, name: Seq<char>) -> Option<int>
    decreases indexes.len(),
{
    if indexes.len() == 0 {
        None
    } else if index_named(indexes.drop_last(), name) is Some {
        index_named(indexes.drop_last(), name)
    } else if indexes.last().name@ == name {
        Some(indexes.len() - 1)
    } else {
        None
    }
}

/// The position of the first index of that name is where it is, and every
/// earlier index has another name; without a position no index has it.
pub proof fn lemma_index_named(indexes: Seq<IndexSchema>, name: Seq<char>)
    ensures
        match index_named(indexes, name) {
            Some(i) => 0 <= i < indexes.len() && indexes[i].name@ == name && forall|k: int|
                0 <= k < i ==> (#[trigger] indexes[k]).name@ != name,
            None => forall|k: int| 0 <= k < indexes.len() ==> (#[trigger] indexes[k]).name@ != name,
        },
    decreases indexes.len(),
{
    if indexes.len() > 0 {
        let rest = indexes.drop_last();
        lemma_index_named(rest, name);
        match index_named(rest, name) {
            Some(i) => {
                assert forall|k: int| 0 <= k < i implies (#[trigger] indexes[k]).name@ != name by {
                    assert(rest[k].name@ != name);
                }
                assert(rest[i].name@ == name);
            },
            None => {
                assert forall|k: int| 0 <= k < rest.len() implies (#[trigger] indexes[k]).name@
                    != name by {
                    assert(rest[k].name@ != name);
                }
            },
        }
    }
}

/// The first index of that name.
pub fn find_index<'a>(indexes: &'a Vec<IndexSchema>, name: &String) -> (r: Option<&'a IndexSchema>)
    ensures
        match r {
            Some(schema) => index_named(indexes@, name@) matches Some(i) && *schema == indexes@[i],
            None => index_named(indexes@, name@) is None,
        },
{
    let mut i: usize = 0;
    while i < indexes.len()
        invariant
            i <= indexes@.len(),
            forall|k: int| 0 <= k < i ==> (#[trigger] indexes@[k]).name@ != name@,
        decreases indexes@.len() - i,
    {
        if indexes[i].name == *name {
            proof {
                lemma_index_named(indexes@, name@);
            }
            return Some(&indexes[i]);
        }
        i += 1;
    }
    proof {
        lemma_index_named(indexes@, name@);
    }
    None
}

/// A failure to sign in is answered by signing in again, a missing permission by the
/// permissions that a scan needs, and a missing table by its name and region. For no
/// other failure is a remedy made up.
pub proof fn law_remedies_fit_the_failure(code: Seq<char>)
    ensures
        remedy("ExpiredTokenException"@) == Some("Run `aws sso login` for the profile and retry."@),
        remedy("UnrecognizedClientException"@) == remedy("ExpiredTokenException"@),
        remedy("DispatchFailure"@) == remedy("ExpiredTokenException"@),
        remedy("AccessDeniedException"@) == Some(
            "Grant dynamodb:Scan and dynamodb:DescribeTable on the table."@,
        ),
        remedy("ResourceNotFoundException"@) == Some("Check the table name and the region."@),
        remedy(code) is Some ==> code == "ExpiredTokenException"@ || code
            == "UnrecognizedClientException"@ || code == "DispatchFailure"@ || code
            == "AccessDeniedException"@ || code == "ResourceNotFoundException"@,
{
    reveal_strlit("ExpiredTokenException");
    reveal_strlit("UnrecognizedClientException");
    reveal_strlit("DispatchFailure");
    reveal_strlit("AccessDeniedException");
    reveal_strlit("ResourceNotFoundException");
    assert("AccessDeniedException"@[0] != "ExpiredTokenException"@[0]);
    assert("AccessDeniedException"@[0] != "UnrecognizedClientException"@[0]);
    assert("AccessDeniedException"@[0] != "DispatchFailure"@[0]);
    assert("ResourceNotFoundException"@[0] != "ExpiredTokenException"@[0]);
    assert("ResourceNotFoundException"@[0] != "UnrecognizedClientException"@[0]);
    assert("ResourceNotFoundException"@[0] != "DispatchFailure"@[0]);
    assert("ResourceNotFoundException"@[0] != "AccessDeniedException"@[0]);
}

} // verus!
