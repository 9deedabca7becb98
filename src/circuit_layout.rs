use crate::mle::{cube_size, cube_size_exec};
use vstd::prelude::*;

verus! {

/// A layer of a layered (GKR) circuit, by the number of variables of its wires and of
/// the largest earlier layer it pastes from.
#[derive(Clone, Copy, Debug, PartialEq, Eq, Structural)]
pub struct Layer {
    pub num_vars: usize,
    pub max_previous_num_vars: usize,
}

/// A layered circuit: `layers[0]` is the output layer, the last one the input layer.
pub struct Circuit {
    pub layers: Vec<Layer>,
}

impl Layer {
    /// Number of wires, `2^num_vars`.
    pub fn size(&self) -> (r: usize)
        requires
            cube_size(self.num_vars as nat) <= usize::MAX,
        ensures
            r == cube_size(self.num_vars as nat),
    {
        cube_size_exec(self.num_vars)
    }

    pub fn num_vars(&self) -> (r: usize)
        ensures
            r == self.num_vars,
    {
        self.num_vars
    }

    pub fn max_previous_num_vars(&self) -> (r: usize)
        ensures
            r == self.max_previous_num_vars,
    {
        self.max_previous_num_vars
    }

    /// Number of wires of the largest earlier layer, `2^max_previous_num_vars`.
    pub fn max_previous_size(&self) -> (r: usize)
        requires
            cube_size(self.max_previous_num_vars as nat) <= usize::MAX,
        ensures
            r == cube_size(self.max_previous_num_vars as nat),
    {
        cube_size_exec(self.max_previous_num_vars)
    }
}

impl Circuit {
    /// The output layer.
    pub fn last_layer_ref(&self) -> (r: &Layer)
        requires
            self.layers.len() > 0,
        ensures
            *r == self.layers@[0],
    {
        &self.layers[0]
    }

    /// The input layer.
    pub fn first_layer_ref(&self) -> (r: &Layer)
        requires
            self.layers.len() > 0,
        ensures
            *r == self.layers@[self.layers.len() - 1],
    {
        &self.layers[self.layers.len() - 1]
    }

    pub fn output_num_vars(&self) -> (r: usize)
        requires
            self.layers.len() > 0,
        ensures
            r == self.layers@[0].num_vars,
    {
        self.last_layer_ref().num_vars
    }

    pub fn output_size(&self) -> (r: usize)
        requires
            self.layers.len() > 0,
            cube_size(self.layers@[0].num_vars as nat) <= usize::MAX,
        ensures
            r == cube_size(self.layers@[0].num_vars as nat),
    {
        self.last_layer_ref().size()
    }

    pub fn is_input_layer(&self, layer_id: u32) -> (r: bool)
        requires
            self.layers.len() > 0,
        ensures
            r == (layer_id as int == self.layers.len() - 1),
    {
        layer_id as usize == self.layers.len() - 1
    }

    pub fn is_output_layer(&self, layer_id: u32) -> (r: bool)
        ensures
            r == (layer_id == 0),
    {
        layer_id == 0
    }
}

} // verus!
