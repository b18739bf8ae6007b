use deskspace::projection::{
    ask_name, ask_score, Confidence, Fetch, Fetched, Projection, ProjectionError, ProjectionOutput,
    Resource,
};
use deskspace::projections::dir_list::DirList;
use deskspace::projections::image_preview::ImagePreview;
use deskspace::projections::text_markdown::TextMarkdown;
use deskspace::projections::text_raw::TextRaw;
use deskspace::registry::{best_candidate, rank, ProjectionInfo, ProjectionRegistry};
use std::sync::Arc;

struct DummyProjection {
    proj_id: &'static str,
    label: &'static str,
    conf: u16,
}

impl Projection for DummyProjection {
    fn id(&self) -> &str {
        self.proj_id
    }
    fn name(&self) -> &str {
        self.label
    }
    fn confidence(&self, _resource: &Resource) -> Confidence {
        Confidence::from_permille(self.conf)
    }
    fn needs(&self, _resource: &Resource) -> Fetch {
        Fetch::Nothing
    }
    fn project(&self, _resource: &Resource, _fetched: Fetched) -> Result<ProjectionOutput, ProjectionError> {
        Err(ProjectionError::Unsupported)
    }
}

fn dummy(proj_id: &'static str, conf: u16) -> Arc<dyn Projection> {
    Arc::new(DummyProjection { proj_id, label: "Dummy", conf })
}

fn info(id: &str, permille: u16) -> ProjectionInfo {
    ProjectionInfo { id: id.to_string(), name: id.to_uppercase(), confidence: Confidence::from_permille(permille) }
}

fn ids(infos: &[ProjectionInfo]) -> Vec<&str> {
    infos.iter().map(|i| i.id.as_str()).collect()
}

#[test]
fn best_for_returns_highest_confidence() {
    let mut reg = ProjectionRegistry::new();
    reg.register(Arc::new(DummyProjection { proj_id: "low", label: "Dummy", conf: 300 }));
    reg.register(Arc::new(DummyProjection { proj_id: "high", label: "Dummy", conf: 900 }));
    let resource = Resource::new("test.txt".into(), false);
    let best = reg.best_for(&resource).unwrap();
    assert_eq!(best.id(), "high");
}

#[test]
fn available_for_sorted_descending() {
    let mut reg = ProjectionRegistry::new();
    reg.register(Arc::new(DummyProjection { proj_id: "low", label: "Dummy", conf: 300 }));
    reg.register(Arc::new(DummyProjection { proj_id: "high", label: "Dummy", conf: 900 }));
    let resource = Resource::new("test.txt".into(), false);
    let available = reg.available_for(&resource);
    assert_eq!(available[0].id, "high");
    assert_eq!(available[1].id, "low");
}

#[test]
fn available_for_reports_scores_and_names() {
    let mut reg = ProjectionRegistry::new();
    reg.register(dummy("low", 300));
    reg.register(dummy("high", 900));
    let available = reg.available_for(&Resource::new("test.txt".into(), false));
    assert_eq!(available.len(), 2);
    assert_eq!(available[0].confidence.permille(), 900);
    assert_eq!(available[1].confidence.permille(), 300);
    assert_eq!(available[0].name, "Dummy");
}

#[test]
fn best_for_does_not_depend_on_registration_order() {
    let mut reg = ProjectionRegistry::new();
    reg.register(dummy("high", 900));
    reg.register(dummy("low", 300));
    let resource = Resource::new("test.txt".into(), false);
    assert_eq!(reg.best_for(&resource).unwrap().id(), "high");
    assert_eq!(ids(&reg.available_for(&resource)), vec!["high", "low"]);
}

#[test]
fn equal_scores_are_ordered_by_id() {
    let resource = Resource::new("x".into(), false);
    let mut one = ProjectionRegistry::new();
    one.register(dummy("beta", 500));
    one.register(dummy("alpha", 500));
    one.register(dummy("gamma", 500));
    assert_eq!(one.best_for(&resource).unwrap().id(), "alpha");
    assert_eq!(ids(&one.available_for(&resource)), vec!["alpha", "beta", "gamma"]);
    let mut other = ProjectionRegistry::new();
    other.register(dummy("gamma", 500));
    other.register(dummy("alpha", 500));
    other.register(dummy("beta", 500));
    assert_eq!(other.best_for(&resource).unwrap().id(), "alpha");
    assert_eq!(ids(&other.available_for(&resource)), vec!["alpha", "beta", "gamma"]);
}

#[test]
fn best_for_without_match_is_none() {
    let mut reg = ProjectionRegistry::new();
    let resource = Resource::new("x.bin".into(), false);
    assert!(reg.best_for(&resource).is_none());
    assert!(reg.available_for(&resource).is_empty());
    reg.register(dummy("never", 0));
    reg.register(dummy("nope", 0));
    assert!(reg.best_for(&resource).is_none());
    assert!(reg.available_for(&resource).is_empty());
}

#[test]
fn available_for_leaves_out_what_does_not_apply() {
    let mut reg = ProjectionRegistry::new();
    reg.register(dummy("zero", 0));
    reg.register(dummy("some", 1));
    let available = reg.available_for(&Resource::new("x".into(), false));
    assert_eq!(ids(&available), vec!["some"]);
}

#[test]
fn later_registration_under_an_id_replaces_the_earlier() {
    let mut reg = ProjectionRegistry::new();
    reg.register(Arc::new(DummyProjection { proj_id: "same", label: "first", conf: 900 }));
    reg.register(dummy("other", 500));
    reg.register(Arc::new(DummyProjection { proj_id: "same", label: "second", conf: 100 }));
    let resource = Resource::new("x".into(), false);
    assert_eq!(reg.get("same").unwrap().name(), "second");
    assert_eq!(reg.best_for(&resource).unwrap().id(), "other");
    let available = reg.available_for(&resource);
    assert_eq!(ids(&available), vec!["other", "same"]);
    assert_eq!(available[1].name, "second");
    assert_eq!(available[1].confidence.permille(), 100);
}

#[test]
fn get_finds_by_id_only() {
    let mut reg = ProjectionRegistry::new();
    assert!(reg.get("dir.list").is_none());
    reg.register(Arc::new(DirList));
    reg.register(Arc::new(TextRaw));
    assert_eq!(reg.get("dir.list").unwrap().name(), "Directory Listing");
    assert_eq!(reg.get("text.raw").unwrap().name(), "Plain Text");
    assert!(reg.get("dir").is_none());
    assert!(reg.get("").is_none());
}

#[test]
fn insert_registers_under_the_given_id() {
    let mut reg = ProjectionRegistry::new();
    reg.insert("alias".to_string(), Arc::new(TextRaw));
    assert_eq!(reg.get("alias").unwrap().id(), "text.raw");
    assert!(reg.get("text.raw").is_none());
    let available = reg.available_for(&Resource::new("a.rs".into(), false));
    assert_eq!(ids(&available), vec!["alias"]);
}

#[test]
fn builtin_projections_rank_for_a_markdown_file() {
    let mut reg = ProjectionRegistry::new();
    reg.register(Arc::new(DirList));
    reg.register(Arc::new(TextRaw));
    reg.register(Arc::new(TextMarkdown));
    reg.register(Arc::new(ImagePreview));
    let resource = Resource::new("docs/README.md".into(), false);
    assert_eq!(reg.best_for(&resource).unwrap().id(), "text.markdown");
    assert_eq!(ids(&reg.available_for(&resource)), vec!["text.markdown"]);
    let source = Resource::new("src/main.rs".into(), false);
    assert_eq!(reg.best_for(&source).unwrap().id(), "text.raw");
    let dir = Resource::new("src".into(), true);
    assert_eq!(ids(&reg.available_for(&dir)), vec!["dir.list"]);
    let bare = Resource::new("Makefile".into(), false);
    let available = reg.available_for(&bare);
    assert_eq!(ids(&available), vec!["text.raw"]);
    assert_eq!(available[0].confidence.permille(), 300);
}

#[test]
fn best_candidate_picks_highest_then_first_id() {
    assert_eq!(best_candidate(&vec![]), None);
    assert_eq!(best_candidate(&vec![info("a", 0), info("b", 0)]), None);
    assert_eq!(best_candidate(&vec![info("a", 300), info("b", 900)]), Some(1));
    assert_eq!(best_candidate(&vec![info("b", 900), info("a", 300)]), Some(0));
    assert_eq!(best_candidate(&vec![info("b", 500), info("a", 500), info("c", 500)]), Some(1));
    assert_eq!(best_candidate(&vec![info("z", 0), info("y", 1)]), Some(1));
}

#[test]
fn rank_filters_and_sorts() {
    let ranked = rank(&vec![info("d", 0), info("b", 300), info("c", 900), info("a", 300), info("e", 1000)]);
    assert_eq!(ids(&ranked), vec!["e", "c", "a", "b"]);
    assert_eq!(ranked[0].name, "E");
    assert!(rank(&vec![]).is_empty());
}

#[test]
fn confidence_is_capped_at_one() {
    assert_eq!(Confidence::from_permille(0).permille(), 0);
    assert_eq!(Confidence::from_permille(1000).permille(), 1000);
    assert_eq!(Confidence::from_permille(1001).permille(), 1000);
    assert_eq!(Confidence::from_permille(u16::MAX).permille(), 1000);
    assert!(!Confidence::from_permille(0).is_match());
    assert!(Confidence::from_permille(1).is_match());
    assert_eq!(Confidence::from_permille(300), Confidence::from_permille(300));
}

#[test]
fn asking_a_projection_gives_its_own_answers() {
    let resource = Resource::new("a.rs".into(), false);
    assert_eq!(ask_name(&TextRaw), "Plain Text");
    assert_eq!(ask_score(&TextRaw, &resource).permille(), 800);
    let boxed: Arc<dyn Projection> = dummy("d", 250);
    assert_eq!(ask_name(&*boxed), "Dummy");
    assert_eq!(ask_score(&*boxed, &resource).permille(), 250);
}
