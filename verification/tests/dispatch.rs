use finne::dispatch::{
    create, delete, outcome_status, route, search, update, CreateRequest, Error, IndexType,
    Operation, Page, Route,
};
use finne::request_parser::Method;
use finne::response::Status;
use std::collections::HashMap;

#[test]
fn long_and_short_paths_reach_the_same_handler() {
    assert_eq!(route(b"/create", Method::Post), Route::Store(Operation::Create));
    assert_eq!(route(b"/c", Method::Post), Route::Store(Operation::Create));
    assert_eq!(route(b"/update", Method::Post), Route::Store(Operation::Update));
    assert_eq!(route(b"/u", Method::Post), Route::Store(Operation::Update));
    assert_eq!(route(b"/update", Method::Put), Route::Store(Operation::Update));
    assert_eq!(route(b"/u", Method::Put), Route::Store(Operation::Update));
    assert_eq!(route(b"/delete", Method::Delete), Route::Store(Operation::Delete));
    assert_eq!(route(b"/d", Method::Delete), Route::Store(Operation::Delete));
    assert_eq!(route(b"/search", Method::Get), Route::Store(Operation::Search));
    assert_eq!(route(b"/s", Method::Get), Route::Store(Operation::Search));
    assert_eq!(route(b"/", Method::Get), Route::Index);
}

#[test]
fn anything_else_is_not_found() {
    assert_eq!(route(b"/unknown", Method::Get), Route::NotFound);
    assert_eq!(route(b"/create", Method::Get), Route::NotFound);
    assert_eq!(route(b"/search", Method::Post), Route::NotFound);
    assert_eq!(route(b"/delete", Method::Post), Route::NotFound);
    assert_eq!(route(b"/update", Method::Get), Route::NotFound);
    assert_eq!(route(b"/", Method::Post), Route::NotFound);
    assert_eq!(route(b"", Method::Get), Route::NotFound);
    assert_eq!(route(b"/S", Method::Get), Route::NotFound);
    assert_eq!(route(b"/s/", Method::Get), Route::NotFound);
}

#[test]
fn handlers() {
    let mut indexes = HashMap::new();
    indexes.insert("title".to_string(), IndexType::Text);
    indexes.insert("year".to_string(), IndexType::Integer);
    indexes.insert("score".to_string(), IndexType::Real);
    let request = CreateRequest { name: "docs".to_string(), indexes };
    assert_eq!(create(Some(request)), Ok(true));
    assert_eq!(create(None), Err(Error::InvalidRequest));
    assert_eq!(update(), Ok(true));
    assert_eq!(search(), Ok(true));
    assert_eq!(delete(), Ok(true));
}

#[test]
fn handler_results_map_to_status_classes() {
    assert_eq!(outcome_status(&Ok(true)), Status::Success);
    assert_eq!(outcome_status(&Ok(false)), Status::Success);
    assert_eq!(outcome_status(&Err(Error::InvalidRequest)), Status::ServerError);
    assert_eq!(outcome_status(&Err(Error::_Data)), Status::ServerError);
}

#[test]
fn pages() {
    assert_eq!(Page::Index.text(), b"index\n");
    assert_eq!(Page::Search.text(), b"search\n");
    assert_eq!(Page::Missing.text(), b"404\n");
    assert_eq!(Page::Rejected.text(), b"400\n");
}
