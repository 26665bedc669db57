use std::rc::Rc;

use putki::error::PutkiError;
use putki::pipeline::{
    BuildCandidate, BuildFields, BuildRecord, Builder, BuilderDesc, Pipeline, PipelineDesc, TypeDescriptor,
};
use putki::ptr::Ptr;
use putki::source::{InkiPtrContext, InkiResolver, LexedKv, ObjectLoader, ParseFromKV, ResolveStatus, Tracker, resolve_from};

struct MapLoader {
    records: Vec<(String, String, LexedKv)>,
}

impl MapLoader {
    fn new() -> Self {
        MapLoader { records: Vec::new() }
    }

    fn with(mut self, path: &str, tag: &str, entries: &[(&str, &str)]) -> Self {
        let kv = LexedKv { entries: entries.iter().map(|(k, v)| (k.to_string(), v.to_string())).collect() };
        self.records.push((path.to_string(), tag.to_string(), kv));
        self
    }
}

impl ObjectLoader for MapLoader {
    fn load(&self, path: &str) -> Option<(String, LexedKv)> {
        self.records.iter().find(|r| r.0 == path).map(|r| (r.1.clone(), r.2.clone()))
    }
}

#[derive(Clone)]
enum Asset {
    A { flag: bool, child: Option<Ptr<Asset>> },
    B { value: String },
}

impl ParseFromKV for Asset {
    fn parse(kv: &LexedKv, kind: &str) -> Self {
        let get = |key: &str| kv.entries.iter().find(|e| e.0 == key).map(|e| e.1.clone());
        if kind == "A" {
            let child = get("child").map(|p| Ptr::new(&p, &get("child_kind").unwrap_or_else(|| "A".to_string())));
            Asset::A { flag: false, child }
        } else {
            Asset::B { value: get("value").unwrap_or_default() }
        }
    }
}

impl TypeDescriptor for Asset {
    fn type_tag(&self) -> String {
        match self {
            Asset::A { .. } => "A".to_string(),
            Asset::B { .. } => "B".to_string(),
        }
    }
}

impl BuildFields for Asset {
    fn build_fields<L: ObjectLoader, B: Builder<Self>>(
        &mut self,
        _pl: &Pipeline<Self, L, B>,
        _br: &mut BuildRecord<Self>,
    ) -> Result<(), PutkiError> {
        Ok(())
    }
}

impl BuildCandidate for Asset {
    fn build<L: ObjectLoader, B: Builder<Self>>(
        &mut self,
        p: &Pipeline<Self, L, B>,
        br: &mut BuildRecord<Self>,
    ) -> Result<(), PutkiError> {
        p.build(br, self)
    }

    fn scan_deps<L: ObjectLoader, B: Builder<Self>>(&self, p: &mut Pipeline<Self, L, B>, br: &mut BuildRecord<Self>) {
        if let Asset::A { child: Some(c), .. } = self {
            p.add_output_dependency(br, c);
        }
    }
}

enum TestBuilder {
    SetFlag,
    FailOnBad,
    MakeTemp,
    Follow(InkiPtrContext<MapLoader>),
}

impl Builder<Asset> for TestBuilder {
    fn object_type(&self) -> String {
        "A".to_string()
    }

    fn build(&self, br: &mut BuildRecord<Asset>, input: &mut Asset) -> Result<(), PutkiError> {
        match self {
            TestBuilder::SetFlag => {
                if let Asset::A { flag, .. } = input {
                    *flag = true;
                }
                Ok(())
            }
            TestBuilder::FailOnBad => {
                if br.get_path() == "bad" {
                    Err(PutkiError::BuilderFailed {
                        path: br.get_path().to_string(),
                        builder: "fail-on-bad".to_string(),
                        message: "refused".to_string(),
                    })
                } else {
                    Ok(())
                }
            }
            TestBuilder::Follow(ctx) => {
                if let Asset::A { child: Some(c), .. } = input {
                    c.resolve(ctx, br);
                }
                Ok(())
            }
            TestBuilder::MakeTemp => {
                let tex = br.create_object("Tex", Asset::B { value: "made".to_string() });
                if let Asset::A { child, .. } = input {
                    *child = Some(tex);
                }
                Ok(())
            }
        }
    }

    fn desc(&self) -> BuilderDesc {
        BuilderDesc { description: "test builder".to_string() }
    }
}

fn pipeline(loader: MapLoader, builders: Vec<TestBuilder>) -> Pipeline<Asset, MapLoader, TestBuilder> {
    let mut desc = PipelineDesc::new(loader);
    for b in builders {
        desc = desc.add_builder(b);
    }
    Pipeline::new(desc)
}

fn drain(p: &mut Pipeline<Asset, MapLoader, TestBuilder>) -> usize {
    let mut steps = 0;
    while p.take() {
        steps += 1;
    }
    steps
}

#[test]
fn single_root_no_deps() {
    let mut p = pipeline(MapLoader::new().with("a", "A", &[]), vec![TestBuilder::SetFlag]);
    p.build_as("a", "A");
    assert_eq!(drain(&mut p), 1);
    assert_eq!(p.peek_build_records().len(), 1);
    let rec = p.find_record("a").unwrap();
    assert!(rec.is_ok());
    assert_eq!(rec.get_path(), "a");
    assert!(rec.get_dep_paths().is_empty());
    assert!(rec.get_diagnostics().is_empty());
    assert!(matches!(rec.get_built_obj(), Some(Asset::A { flag: true, .. })));
}

#[test]
fn missing_path_fails_record() {
    let mut p = pipeline(MapLoader::new(), vec![TestBuilder::SetFlag]);
    p.build_as("ghost", "A");
    drain(&mut p);
    let rec = p.find_record("ghost").unwrap();
    assert!(!rec.is_ok());
    assert!(rec.get_error().as_ref().unwrap().is_load_missing());
    assert!(matches!(rec.get_error(), Some(PutkiError::LoadMissing { path }) if path == "ghost"));
    assert!(rec.get_built_obj().is_none());
}

#[test]
fn linear_dependency() {
    let loader = MapLoader::new()
        .with("a", "A", &[("child", "b"), ("child_kind", "B")])
        .with("b", "B", &[("value", "x")]);
    let mut p = pipeline(loader, vec![]);
    p.build_as("a", "A");
    assert_eq!(drain(&mut p), 2);
    let a = p.find_record("a").unwrap();
    assert!(a.has_dep("b"));
    assert_eq!(a.get_dep_paths(), vec!["b".to_string()]);
    let b = p.find_record("b").unwrap();
    assert!(b.is_ok());
    assert!(matches!(b.get_built_obj(), Some(Asset::B { value }) if value == "x"));
    let order: Vec<&str> = p.peek_build_records().iter().map(|r| r.get_path()).collect();
    assert_eq!(order, vec!["a", "b"]);
}

#[test]
fn cycle_terminates() {
    let loader = MapLoader::new().with("x", "A", &[("child", "y")]).with("y", "A", &[("child", "x")]);
    let mut p = pipeline(loader, vec![]);
    p.build_as("x", "A");
    assert_eq!(drain(&mut p), 2);
    assert_eq!(p.peek_build_records().len(), 2);
    assert!(p.find_record("x").unwrap().has_dep("y"));
    assert!(p.find_record("y").unwrap().has_dep("x"));
    assert!(!p.take());
}

#[test]
fn type_mismatch_is_reported_and_parsed_as_requested() {
    let mut p = pipeline(MapLoader::new().with("a", "B", &[]), vec![TestBuilder::SetFlag]);
    p.build_as("a", "A");
    drain(&mut p);
    let rec = p.find_record("a").unwrap();
    assert!(rec.is_ok());
    let d = rec.get_diagnostics();
    assert_eq!(d.len(), 1);
    assert!(d[0].is_type_mismatch());
    assert!(matches!(&d[0], PutkiError::TypeMismatch { path, expected, found }
        if path == "a" && expected == "A" && found == "B"));
    assert!(matches!(rec.get_built_obj(), Some(Asset::A { flag: true, .. })));
}

#[test]
fn builder_error_is_per_record() {
    let loader = MapLoader::new().with("bad", "A", &[]).with("good", "A", &[]);
    let mut p = pipeline(loader, vec![TestBuilder::FailOnBad, TestBuilder::SetFlag]);
    p.build_as("bad", "A");
    p.build_as("good", "A");
    assert_eq!(drain(&mut p), 2);
    let bad = p.find_record("bad").unwrap();
    assert!(!bad.is_ok());
    assert!(bad.get_error().as_ref().unwrap().is_builder_failed());
    // the chain stopped before the second builder
    assert!(matches!(bad.get_built_obj(), Some(Asset::A { flag: false, .. })));
    let good = p.find_record("good").unwrap();
    assert!(good.is_ok());
    assert!(good.get_error().is_none());
}

#[test]
fn each_path_is_built_once() {
    let loader = MapLoader::new()
        .with("a", "A", &[("child", "b"), ("child_kind", "B")])
        .with("b", "B", &[]);
    let mut p = pipeline(loader, vec![]);
    assert!(p.insert_path_to_build("a", "A"));
    assert!(!p.insert_path_to_build("a", "A"));
    p.build_as("b", "B");
    p.build_as("a", "A");
    assert_eq!(drain(&mut p), 2);
    let paths: Vec<&str> = p.peek_build_records().iter().map(|r| r.get_path()).collect();
    assert_eq!(paths, vec!["a", "b"]);
    // a path already built is not queued again
    p.build_as("a", "A");
    assert!(!p.take());
    assert_eq!(p.peek_build_records().len(), 2);
}

#[test]
fn matching_tag_gives_no_diagnostic() {
    let mut p = pipeline(MapLoader::new().with("a", "A", &[]), vec![]);
    p.build_as("a", "A");
    drain(&mut p);
    assert!(p.find_record("a").unwrap().get_diagnostics().is_empty());
}

#[test]
fn temp_object_is_not_queued() {
    let mut p = pipeline(MapLoader::new().with("a", "A", &[]), vec![TestBuilder::MakeTemp]);
    p.build_as("a", "A");
    assert_eq!(drain(&mut p), 1);
    let rec = p.find_record("a").unwrap();
    assert!(rec.is_ok());
    assert_eq!(rec.get_dep_paths(), vec!["a!Tex".to_string()]);
    assert!(p.find_record("a!Tex").is_none());
    assert_eq!(p.peek_build_records().len(), 1);
}

#[test]
fn build_ptr_skips_temp_objects() {
    let mut p = pipeline(MapLoader::new().with("a", "A", &[]), vec![]);
    let tmp: Ptr<Asset> = Ptr::new_temp_object("a!Tex", "B", Rc::new(Asset::B { value: String::new() }));
    assert!(tmp.is_temp_object());
    assert_eq!(tmp.get_target_path().unwrap(), "a!Tex");
    p.build_ptr(&tmp);
    assert!(!p.take());
    let real: Ptr<Asset> = Ptr::new("a", "A");
    p.build_ptr(&real);
    assert!(p.take());
    assert!(p.find_record("a").unwrap().is_ok());
}

struct CountingTracker {
    followed: Vec<String>,
    reports: Vec<PutkiError>,
}

impl Tracker for CountingTracker {
    fn follow(&mut self, path: &str) {
        self.followed.push(path.to_string());
    }

    fn report(&mut self, e: PutkiError) {
        self.reports.push(e);
    }
}

#[test]
fn resolve_twice_returns_same_value() {
    let ctx = InkiPtrContext { source: Rc::new(InkiResolver::new(MapLoader::new().with("b", "B", &[("value", "v")]))) };
    let mut t = CountingTracker { followed: Vec::new(), reports: Vec::new() };
    let mut ptr: Ptr<Asset> = Ptr::new("b", "B");
    let first = ptr.resolve(&ctx, &mut t).unwrap();
    let second = ptr.resolve(&ctx, &mut t).unwrap();
    assert!(Rc::ptr_eq(&first, &second));
    assert_eq!(t.followed, vec!["b".to_string(), "b".to_string()]);
    assert!(t.reports.is_empty());
}

#[test]
fn resolve_missing_and_mismatched() {
    let ctx = InkiPtrContext { source: Rc::new(InkiResolver::new(MapLoader::new().with("b", "B", &[]))) };
    let mut t = CountingTracker { followed: Vec::new(), reports: Vec::new() };
    let mut missing: Ptr<Asset> = Ptr::new("nope", "A");
    assert!(missing.resolve(&ctx, &mut t).is_none());
    assert!(t.reports.is_empty());
    let status: ResolveStatus<Asset> = resolve_from(&ctx, "b", "A", &mut t);
    assert!(matches!(status, ResolveStatus::Resolved(ref a) if matches!(**a, Asset::A { .. })));
    assert_eq!(t.reports.len(), 1);
    assert!(t.reports[0].is_type_mismatch());
    let failed: ResolveStatus<Asset> = resolve_from(&ctx, "zzz", "A", &mut t);
    assert!(matches!(failed, ResolveStatus::Failed));
}

#[test]
fn create_object_path_form() {
    // a record is only handed out by the pipeline, so the path is read back from the dependency
    let mut p = pipeline(MapLoader::new().with("root", "A", &[]), vec![TestBuilder::MakeTemp]);
    p.build_as("root", "A");
    drain(&mut p);
    assert_eq!(p.find_record("root").unwrap().get_dep_paths(), vec!["root!Tex".to_string()]);
}

#[test]
fn followed_pointers_are_visited() {
    let loader = || MapLoader::new().with("a", "A", &[("child", "b"), ("child_kind", "B")]).with("b", "A", &[]);
    let ctx = InkiPtrContext { source: Rc::new(InkiResolver::new(loader())) };
    let mut p = pipeline(loader(), vec![TestBuilder::Follow(ctx)]);
    p.build_as("a", "A");
    assert_eq!(drain(&mut p), 2);
    let a = p.find_record("a").unwrap();
    assert_eq!(a.get_visited(), &vec!["b".to_string()]);
    // "b" is stored as "A" but the pointer asked for "B"
    assert_eq!(a.get_diagnostics().len(), 1);
    assert!(matches!(&a.get_diagnostics()[0], PutkiError::TypeMismatch { path, .. } if path == "b"));
    assert!(p.find_record("b").unwrap().get_visited().is_empty());
}
