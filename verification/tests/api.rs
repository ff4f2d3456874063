use nomad_rs::allocs::{Allocation, ClientStatus, DesiredStatus};
use nomad_rs::api::{job_name, route, ApiReply, ApiRequest, ApiResponse, HttpApi, Method, Route};
use nomad_rs::eval::{EvalStatus, EvalTrigger, Evaluation};
use nomad_rs::id::{EvalId, JobId};
use nomad_rs::jobspec::{Job, Resources};
use nomad_rs::node::{Node, NodeStatus, SchedulingEligibility};
use nomad_rs::state::StateStore;
use nomad_rs::strmap::StrMap;

fn populated_state() -> StateStore {
    let mut state = StateStore::new();
    state.upsert_job(Job { name: "redis".to_owned(), priority: 50, ..Job::default() }).unwrap();
    state
        .upsert_node(Node {
            id: "n1".to_owned(),
            name: "node-1".to_owned(),
            datacenter: "dc1".to_owned(),
            node_class: String::new(),
            resources: Resources::default(),
            status: NodeStatus::Ready,
            eligibility: SchedulingEligibility::Eligible,
            draining: false,
            attributes: StrMap::new(),
            drivers: StrMap::new(),
        })
        .unwrap();
    state
        .upsert_alloc(Allocation {
            id: "a1".to_owned(),
            eval_id: "e1".to_owned(),
            node_id: "n1".to_owned(),
            job_id: "redis".to_owned(),
            task_group: "cache".to_owned(),
            desired_status: DesiredStatus::Run,
            client_status: ClientStatus::Running,
            resources: Resources::default(),
        })
        .unwrap();
    state
        .upsert_eval(Evaluation {
            id: EvalId::from_str("e1"),
            job_id: JobId::from_str("redis"),
            priority: 50,
            trigger: EvalTrigger::JobRegister,
            status: EvalStatus::Pending,
        })
        .unwrap();
    state
}

fn get(path: &str) -> ApiRequest {
    ApiRequest { method: Method::Get, path: path.to_owned(), body: None }
}

#[test]
fn list_jobs_returns_200() {
    let api = HttpApi::new(Some(populated_state()));
    let resp = api.handle(get("/v1/jobs")).unwrap();
    assert_eq!(resp.status(), 200);
    let ApiReply::Jobs(jobs) = resp else { panic!("expected jobs") };
    assert_eq!(jobs.len(), 1);
    assert_eq!(jobs[0].name, "redis");
}

#[test]
fn get_job_returns_job() {
    let api = HttpApi::new(Some(populated_state()));
    let resp = api.handle(get("/v1/job/redis")).unwrap();
    assert_eq!(resp.status(), 200);
    let ApiReply::Job(job) = resp else { panic!("expected a job") };
    assert_eq!(job.name, "redis");
}

#[test]
fn get_missing_job_returns_404() {
    let api = HttpApi::new(Some(populated_state()));
    let resp = api.handle(get("/v1/job/nonexistent")).unwrap();
    assert_eq!(resp.status(), 404);
}

#[test]
fn list_evals_returns_200() {
    let api = HttpApi::new(Some(populated_state()));
    let resp = api.handle(get("/v1/evaluations")).unwrap();
    assert_eq!(resp.status(), 200);
    let ApiReply::Evals(evals) = resp else { panic!("expected evals") };
    assert_eq!(evals.len(), 1);
}

#[test]
fn list_allocs_returns_200() {
    let api = HttpApi::new(Some(populated_state()));
    let resp = api.handle(get("/v1/allocations")).unwrap();
    assert_eq!(resp.status(), 200);
    let ApiReply::Allocs(allocs) = resp else { panic!("expected allocs") };
    assert_eq!(allocs.len(), 1);
}

#[test]
fn list_nodes_returns_200() {
    let api = HttpApi::new(Some(populated_state()));
    let resp = api.handle(get("/v1/nodes")).unwrap();
    assert_eq!(resp.status(), 200);
    let ApiReply::Nodes(nodes) = resp else { panic!("expected nodes") };
    assert_eq!(nodes.len(), 1);
}

#[test]
fn agent_health_returns_200() {
    let api = HttpApi::default();
    let resp = api.handle(get("/v1/agent")).unwrap();
    assert_eq!(resp.status(), 200);
    assert!(matches!(resp, ApiReply::AgentHealth));
}

#[test]
fn status_leader_returns_200() {
    let api = HttpApi::default();
    let resp = api.handle(get("/v1/status/leader")).unwrap();
    assert_eq!(resp.status(), 200);
}

#[test]
fn operator_raft_config_returns_200() {
    let api = HttpApi::default();
    let resp = api.handle(get("/v1/operator/raft/configuration")).unwrap();
    assert_eq!(resp.status(), 200);
}

#[test]
fn unknown_path_returns_404() {
    let api = HttpApi::default();
    assert_eq!(api.handle(get("/v1/nope")).unwrap().status(), 404);
}

#[test]
fn empty_job_name_returns_400() {
    let api = HttpApi::default();
    let resp = api.handle(get("/v1/job/")).unwrap();
    assert_eq!(resp.status(), 400);
}

#[test]
fn error_bodies_are_json_objects() {
    let r = ApiResponse::not_found();
    assert_eq!(r.status, 404);
    assert_eq!(r.body, "{\"error\":\"not found\"}");
    let r = ApiResponse::bad_request("say \"hi\"");
    assert_eq!(r.status, 400);
    assert_eq!(r.body, "{\"error\":\"say \\\"hi\\\"\"}");
    assert_eq!(ApiResponse::internal_error("boom").status, 500);
}

#[test]
fn lists_without_state_are_empty() {
    let api = HttpApi::default();
    let ApiReply::Jobs(jobs) = api.handle(get("/v1/jobs")).unwrap() else { panic!("expected jobs") };
    assert!(jobs.is_empty());
    assert_eq!(api.handle(get("/v1/job/redis")).unwrap().status(), 404);
}

#[test]
fn only_get_is_routed() {
    assert_eq!(route(Method::Get, "/v1/jobs"), Route::ListJobs);
    assert_eq!(route(Method::Post, "/v1/jobs"), Route::Unknown);
    assert_eq!(route(Method::Get, "/v1/job/x"), Route::GetJob);
    assert_eq!(route(Method::Get, "/v1/agent/members"), Route::AgentMembers);
    assert_eq!(route(Method::Get, "/v1/status/peers"), Route::StatusPeers);
}

#[test]
fn job_names_drop_every_leading_prefix() {
    assert_eq!(job_name("/v1/job/redis"), "redis");
    assert_eq!(job_name("/v1/job//v1/job/web"), "web");
    assert_eq!(job_name("/v1/job/"), "");
}

#[test]
fn error_bodies_escape_like_json() {
    let r = ApiResponse::bad_request("a\\b\nc\td\u{1}e/f\u{1f}é");
    assert_eq!(r.body, "{\"error\":\"a\\\\b\\nc\\td\\u0001e/f\\u001fé\"}");
}
