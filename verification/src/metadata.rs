//! Dictionaries and system parameters.
use vstd::prelude::*;

verus! {

#[derive(Debug, Clone)]
pub struct DictionaryListQuery {
    pub page: Option<i64>,
    pub page_size: Option<i64>,
    pub name: Option<String>,
}

#[derive(Debug, Clone)]
pub struct DictionaryInput {
    pub name: String,
    pub dict_type: String,
    pub status: Option<bool>,
    pub desc: String,
    pub parent_id: Option<i64>,
}

#[derive(Debug, Clone)]
pub struct DictionaryDetailInput {
    pub label: String,
    pub value: String,
    pub extend: String,
    pub status: Option<bool>,
    pub sort: i32,
    pub parent_id: Option<i64>,
}

#[derive(Debug, Clone)]
pub struct SysParam {
    pub id: i64,
    pub name: String,
    pub key: String,
    pub value: String,
    pub desc: String,
}

#[derive(Debug, Clone)]
pub struct ParamListQuery {
    pub page: Option<i64>,
    pub page_size: Option<i64>,
    pub name: Option<String>,
    pub key: Option<String>,
}

#[derive(Debug, Clone)]
pub struct ParameterInput {
    pub name: String,
    pub key: String,
    pub value: String,
    pub desc: String,
}

} // verus!
