use pcg::region::RegionIdx;
use pcg::coupling::{CoupledEdgesData, HyperEdge};
use pcg::coupling::AbstractionBlockEdge;
use pcg::function_shape::{ArgIdx, ArgIdxOrResult, FunctionShape, FunctionShapeInput, FunctionShapeNode};
use pcg::mir::RegionVid;
use pcg::region::PcgRegion;

#[test]
fn test_max_function_shape() {
    // fn max<'a>(rx: &'a mut i32, ry: &'a mut i32) -> &'a mut i32
    let tick_a: PcgRegion = PcgRegion::RegionVid(RegionVid(0));
    let regions = vec![tick_a];
    let rx = FunctionShapeInput::new(ArgIdx(0), tick_a, &regions).unwrap();
    let ry = FunctionShapeInput::new(ArgIdx(1), tick_a, &regions).unwrap();
    let result = FunctionShapeNode::new(ArgIdxOrResult::Result, tick_a, &regions).unwrap();
    let shape = FunctionShape {
        inputs: vec![rx, ry],
        outputs: vec![result],
        edges: vec![AbstractionBlockEdge::new(rx, result), AbstractionBlockEdge::new(ry, result)],
    };
    let coupled_edges = shape.coupled_edges();
    assert_eq!(coupled_edges.len(), 1);
    let edge = &coupled_edges.0[0];
    assert_eq!(edge.inputs(), &[rx, ry]);
    assert_eq!(edge.outputs(), &[result]);
}

#[test]
fn disjoint_shape_edges_stay_apart() {
    // fn f<'a, 'b>(x: &'a i32, y: &'b i32) -> (&'a i32, &'b i32)
    let tick_a = PcgRegion::RegionVid(RegionVid(0));
    let tick_b = PcgRegion::RegionVid(RegionVid(1));
    let regions = vec![tick_a, tick_b];
    let x = FunctionShapeInput::new(ArgIdx(0), tick_a, &vec![tick_a]).unwrap();
    let y = FunctionShapeInput::new(ArgIdx(1), tick_b, &vec![tick_b]).unwrap();
    let ra = FunctionShapeNode::new(ArgIdxOrResult::Result, tick_a, &regions).unwrap();
    let rb = FunctionShapeNode::new(ArgIdxOrResult::Result, tick_b, &regions).unwrap();
    assert_eq!(rb.region_idx.0, 1);
    let shape = FunctionShape {
        inputs: vec![x, y],
        outputs: vec![ra, rb],
        edges: vec![AbstractionBlockEdge::new(x, ra), AbstractionBlockEdge::new(y, rb)],
    };
    let coupled = shape.coupled_edges();
    assert_eq!(coupled.len(), 2);
}

#[test]
fn shape_input_absent_region_is_none() {
    let tick_a = PcgRegion::RegionVid(RegionVid(0));
    let tick_b = PcgRegion::RegionVid(RegionVid(1));
    assert!(FunctionShapeInput::new(ArgIdx(0), tick_b, &vec![tick_a]).is_none());
}

#[test]
fn shape_is_written_with_inputs_outputs_and_edges() {
    let tick_a = PcgRegion::RegionVid(RegionVid(0));
    let regions = vec![tick_a];
    let rx = FunctionShapeInput::new(ArgIdx(0), tick_a, &regions).unwrap();
    let ry = FunctionShapeInput::new(ArgIdx(1), tick_a, &regions).unwrap();
    let result = FunctionShapeNode::new(ArgIdxOrResult::Result, tick_a, &regions).unwrap();
    let shape = FunctionShape {
        inputs: vec![rx, ry],
        outputs: vec![result],
        edges: vec![AbstractionBlockEdge::new(rx, result), AbstractionBlockEdge::new(ry, result)],
    };
    assert_eq!(
        shape.to_display_string(),
        "Inputs: [Arg(0)|0, Arg(1)|0]\nOutputs: [Result|0]\nEdges: [Arg(0)|0 -> Result|0, Arg(1)|0 -> Result|0]"
    );
    let empty = FunctionShape { inputs: vec![], outputs: vec![], edges: vec![] };
    assert_eq!(empty.to_display_string(), "Inputs: []\nOutputs: []\nEdges: []");
}

#[test]
fn coupled_edges_as_a_set_keep_each_hyperedge_once() {
    let input = |a: usize| FunctionShapeInput { base: ArgIdx(a), region_idx: RegionIdx(0) };
    let output = || FunctionShapeNode { base: ArgIdxOrResult::Result, region_idx: RegionIdx(0) };
    let data = CoupledEdgesData(vec![
        HyperEdge::new(vec![input(0)], vec![output()]),
        HyperEdge::new(vec![input(1)], vec![output()]),
        HyperEdge::new(vec![input(0)], vec![output()]),
    ]);
    let set = data.into_hash_set();
    assert_eq!(set.len(), 2);
    assert_eq!(set[0].inputs(), &vec![input(0)]);
    assert_eq!(set[1].inputs(), &vec![input(1)]);
    let (ins, outs) = (set[1].inputs().len(), set[1].outputs().len());
    assert_eq!((ins, outs), (1, 1));
    let edge = HyperEdge::new(vec![input(2), input(3)], vec![output()]);
    assert_eq!(edge.map_into(|i, o| i.len() * 10 + o.len()), 21);
}
