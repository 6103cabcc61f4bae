use a3s_boot::controller::ControllerDefinition;
use a3s_boot::openapi::{upsert_parameter, OpenApiParameter, OpenApiParameterLocation, OpenApiResponse, OpenApiSchema};
use a3s_boot::route::RouteDefinition;
use a3s_boot::security::{OpenApiApiKeyLocation, OpenApiSecurityScheme};

type Route = RouteDefinition<&'static str, &'static str>;

fn string_schema() -> OpenApiSchema {
    OpenApiSchema::from_json("{\"type\":\"string\"}".to_string())
}

#[test]
fn controller_openapi_tags_apply_to_routes() {
    let controller: ControllerDefinition<&'static str, &'static str> = ControllerDefinition::new("/cats".to_string())
        .unwrap()
        .with_tag("cats".to_string())
        .get("/{id}".to_string(), "ok")
        .unwrap();

    assert_eq!(controller.routes()[0].openapi().tags, vec!["cats"]);
}

#[test]
fn tags_are_kept_once_in_first_order() {
    let route: Route = RouteDefinition::get("/cats".to_string(), "ok")
        .unwrap()
        .with_tag("cats".to_string())
        .with_tag("pets".to_string())
        .with_tag("cats".to_string());

    assert_eq!(route.openapi().tags, vec!["cats", "pets"]);
}

#[test]
fn route_builder_bearer_auth_registers_requirement_and_scheme() {
    let route: Route = RouteDefinition::get("/secure".to_string(), "ok").unwrap().with_bearer_auth();

    let scheme = route.openapi().security_schemes.get("bearerAuth").unwrap();
    assert_eq!(scheme.ty, "http");
    assert_eq!(scheme.scheme.as_deref(), Some("bearer"));
    assert_eq!(scheme.bearer_format.as_deref(), Some("JWT"));
    assert_eq!(route.openapi().security.len(), 1);
    assert!(route.openapi().security[0].get("bearerAuth").unwrap().is_empty());
}

#[test]
fn api_key_auth_records_location_and_name() {
    let route: Route = RouteDefinition::get("/secure/query-key".to_string(), "ok")
        .unwrap()
        .with_query_api_key_auth("queryKeyAuth".to_string(), "api_key".to_string())
        .with_cookie_auth("cookieAuth".to_string(), "sid".to_string());

    let query = route.openapi().security_schemes.get("queryKeyAuth").unwrap();
    assert_eq!(query.ty, "apiKey");
    assert_eq!(query.location, Some(OpenApiApiKeyLocation::Query));
    assert_eq!(query.name.as_deref(), Some("api_key"));
    let cookie = route.openapi().security_schemes.get("cookieAuth").unwrap();
    assert_eq!(cookie.location, Some(OpenApiApiKeyLocation::Cookie));
    assert_eq!(route.openapi().security.len(), 2);
}

#[test]
fn api_security_requirement_keeps_scopes() {
    let route: Route = RouteDefinition::get("/secure/custom".to_string(), "ok")
        .unwrap()
        .with_api_security("customAuth".to_string(), vec!["read".to_string(), "write".to_string()]);

    assert_eq!(*route.openapi().security[0].get("customAuth").unwrap(), ["read", "write"]);
}

#[test]
fn security_scheme_descriptions_are_kept() {
    let scheme = OpenApiSecurityScheme::api_key_query("api_key".to_string())
        .with_description("API key query parameter".to_string());

    assert_eq!(scheme.description.as_deref(), Some("API key query parameter"));
    assert_eq!(scheme.location, Some(OpenApiApiKeyLocation::Query));
}

#[test]
fn parameters_replace_the_same_name_and_location() {
    let mut parameters = Vec::new();
    upsert_parameter(&mut parameters, OpenApiParameter::query("page".to_string(), false, string_schema()));
    upsert_parameter(&mut parameters, OpenApiParameter::header("page".to_string(), true, string_schema()));
    upsert_parameter(&mut parameters, OpenApiParameter::query("page".to_string(), true, string_schema()));

    assert_eq!(parameters.len(), 2);
    assert_eq!(parameters[0].location, OpenApiParameterLocation::Query);
    assert!(parameters[0].required);
    assert_eq!(parameters[1].location, OpenApiParameterLocation::Header);
}

#[test]
fn path_parameters_are_required() {
    let route: Route = RouteDefinition::get("/cats/{id}".to_string(), "ok")
        .unwrap()
        .with_path_parameter("id".to_string(), string_schema());

    assert_eq!(route.openapi().parameters.len(), 1);
    assert!(route.openapi().parameters[0].required);
    assert_eq!(route.openapi().parameters[0].location, OpenApiParameterLocation::Path);
}

#[test]
fn responses_are_keyed_by_status_code() {
    let route: Route = RouteDefinition::get("/cats/{id}".to_string(), "ok")
        .unwrap()
        .with_json_response(200, "Cat found".to_string(), string_schema())
        .with_response(404, OpenApiResponse::json("Cat not found".to_string(), string_schema()))
        .with_default_response(OpenApiResponse::json("Error".to_string(), string_schema()));

    assert_eq!(route.openapi().responses.get("200").unwrap().description, "Cat found");
    assert_eq!(route.openapi().responses.get("404").unwrap().description, "Cat not found");
    assert_eq!(route.openapi().responses.get("default").unwrap().description, "Error");
    assert_eq!(route.openapi().responses.get("200").unwrap().content_type.as_deref(), Some("application/json"));
}

#[test]
fn operation_metadata_is_recorded() {
    let route: Route = RouteDefinition::get("/cats/{id}".to_string(), "ok")
        .unwrap()
        .with_operation_id("findCat".to_string())
        .with_summary("Find a cat".to_string())
        .with_description("Returns one cat by id.".to_string())
        .with_deprecated()
        .hide_from_openapi();

    assert_eq!(route.openapi().operation_id.as_deref(), Some("findCat"));
    assert_eq!(route.openapi().summary.as_deref(), Some("Find a cat"));
    assert_eq!(route.openapi().description.as_deref(), Some("Returns one cat by id."));
    assert!(route.openapi().deprecated);
    assert!(route.openapi().hidden);
}

#[test]
fn bearer_scheme_has_http_type() {
    let scheme = OpenApiSecurityScheme::http_bearer();

    assert_eq!(scheme.ty, "http");
    assert_eq!(scheme.scheme.as_deref(), Some("bearer"));
}

#[test]
fn auth_builders_keep_the_rest_of_the_route_metadata() {
    let route: Route = RouteDefinition::get("/secure".to_string(), "ok")
        .unwrap()
        .with_tag("cats".to_string())
        .with_summary("Secure cats".to_string())
        .with_bearer_auth()
        .with_header_api_key_auth("headerKey".to_string(), "x-api-key".to_string());

    assert_eq!(route.openapi().tags, ["cats"]);
    assert_eq!(route.openapi().summary.as_deref(), Some("Secure cats"));
    assert_eq!(route.openapi().security.len(), 2);
    assert!(route.openapi().security[0].get("bearerAuth").unwrap().is_empty());
    assert!(route.openapi().security[1].get("headerKey").unwrap().is_empty());
    let key = route.openapi().security_schemes.get("headerKey").unwrap();
    assert_eq!(key.ty, "apiKey");
    assert_eq!(key.location, Some(OpenApiApiKeyLocation::Header));
    assert_eq!(key.name.as_deref(), Some("x-api-key"));
    assert_eq!(route.path(), "/secure");
}
